//! The Text Sanitizer and the Label Sanitizer: validating and trimming a
//! single in-memory string against a length and character-class policy.

use crate::chars::{check_control, check_space, is_control_char, is_space_char};
use crate::errors::InputError;
use crate::scan::{lemma_scan_from, scan_from};
use vstd::prelude::*;
use vstd::string::StrSliceExecFns;

verus! {

/// The sequence with trailing whitespace removed.
pub open spec fn trim_end_spec(s: Seq<char>) -> Seq<char>
    decreases s.len(),
{
    if s.len() > 0 && is_space_char(s.last()) {
        trim_end_spec(s.drop_last())
    } else {
        s
    }
}

/// The sequence with leading whitespace removed.
pub open spec fn trim_start_spec(s: Seq<char>) -> Seq<char>
    decreases s.len(),
{
    if s.len() > 0 && is_space_char(s.first()) {
        trim_start_spec(s.drop_first())
    } else {
        s
    }
}

/// The whitespace-trimmed form of a string.  Line terminators are whitespace
/// characters, so this also strips any trailing `\r`/`\n` sequence a
/// transport may have appended before it trims ordinary whitespace.
pub open spec fn trimmed(s: Seq<char>) -> Seq<char> {
    trim_start_spec(trim_end_spec(s))
}

/// The predicate the character-class scan looks for: a control character.
pub open spec fn control_pred() -> spec_fn(char) -> bool {
    |c: char| is_control_char(c)
}

/// The decision of the Text Sanitizer on input `s` with limit `max_len`:
/// the trimmed form of `s` when it is non-empty, within the limit, and free
/// of control characters; otherwise the error that explains the rejection,
/// with the first offending character reported.
pub open spec fn sanitize_spec(s: Seq<char>, max_len: usize) -> Result<Seq<char>, InputError> {
    let t = trimmed(s);
    let fc = scan_from(t, control_pred(), 0);
    if t.len() == 0 {
        Err(InputError::Empty)
    } else if t.len() > max_len {
        Err(InputError::TooLong { max: max_len, actual: t.len() as usize })
    } else if fc < t.len() {
        Err(InputError::InvalidCharacter(t[fc]))
    } else {
        Ok(t)
    }
}

/// Trimming the end keeps exactly the prefix up to the last non-space
/// character.
proof fn lemma_trim_end_take(s: Seq<char>, e: int)
    requires
        0 <= e <= s.len(),
        forall|i: int| e <= i < s.len() ==> is_space_char(s[i]),
        e > 0 ==> !is_space_char(s[e - 1]),
    ensures
        trim_end_spec(s) == s.take(e),
    decreases s.len(),
{
    if e == s.len() {
        assert(s.take(e) =~= s);
    } else {
        assert(is_space_char(s.last()));
        lemma_trim_end_take(s.drop_last(), e);
        assert(s.drop_last().take(e) =~= s.take(e));
    }
}

/// Trimming the start keeps exactly the suffix from the first non-space
/// character.
proof fn lemma_trim_start_skip(s: Seq<char>, b: int)
    requires
        0 <= b <= s.len(),
        forall|i: int| 0 <= i < b ==> is_space_char(s[i]),
        b < s.len() ==> !is_space_char(s[b]),
    ensures
        trim_start_spec(s) == s.skip(b),
    decreases s.len(),
{
    if b == 0 {
        assert(s.skip(0) =~= s);
    } else {
        assert(is_space_char(s.first()));
        lemma_trim_start_skip(s.drop_first(), b - 1);
        assert(s.drop_first().skip(b - 1) =~= s.skip(b));
    }
}

/// A non-empty end-trimmed sequence ends in a visible character.
proof fn lemma_trim_end_last(s: Seq<char>)
    ensures
        trim_end_spec(s).len() > 0 ==> !is_space_char(trim_end_spec(s).last()),
    decreases s.len(),
{
    if s.len() > 0 && is_space_char(s.last()) {
        lemma_trim_end_last(s.drop_last());
    }
}

/// A non-empty start-trimmed sequence begins with a visible character, is no
/// longer than its input, and keeps the input's last element.
proof fn lemma_trim_start_props(s: Seq<char>)
    ensures
        trim_start_spec(s).len() <= s.len(),
        trim_start_spec(s).len() > 0 ==> !is_space_char(trim_start_spec(s).first()),
        trim_start_spec(s).len() > 0 ==> trim_start_spec(s).last() == s.last(),
    decreases s.len(),
{
    if s.len() > 0 && is_space_char(s.first()) {
        lemma_trim_start_props(s.drop_first());
    }
}

/// A non-empty trimmed string starts with a visible character: trimming
/// never leaves invisible padding at the front.
pub proof fn lemma_trimmed_first_visible(s: Seq<char>)
    ensures
        trimmed(s).len() > 0 ==> !is_space_char(trimmed(s)[0]),
{
    lemma_trim_start_props(trim_end_spec(s));
}

/// Trimming is idempotent: the trimmed form of a string trims to itself.
pub proof fn lemma_trimmed_idempotent(s: Seq<char>)
    ensures
        trimmed(trimmed(s)) == trimmed(s),
{
    let u = trim_end_spec(s);
    let t = trim_start_spec(u);
    lemma_trim_end_last(s);
    lemma_trim_start_props(u);
    assert(trim_end_spec(t) == t);
    assert(trim_start_spec(t) == t);
}

/// Sanitizing an already-sanitized string with the same limit returns the
/// identical string: a successful result of the Text Sanitizer passes
/// through a second run unchanged.
pub proof fn lemma_sanitize_idempotent(s: Seq<char>, max_len: usize)
    requires
        sanitize_spec(s, max_len) is Ok,
    ensures
        sanitize_spec(sanitize_spec(s, max_len)->Ok_0, max_len) == sanitize_spec(s, max_len),
{
    lemma_trimmed_idempotent(s);
}

/// A string whose trimmed form is non-empty, within the limit, and free of
/// control characters is accepted, and the result is exactly that
/// whitespace-trimmed, terminator-stripped form.
pub proof fn lemma_sanitize_accepts_clean(s: Seq<char>, max_len: usize)
    requires
        trimmed(s).len() > 0,
        trimmed(s).len() <= max_len,
        forall|i: int| 0 <= i < trimmed(s).len() ==> !is_control_char(trimmed(s)[i]),
    ensures
        sanitize_spec(s, max_len) == Ok::<Seq<char>, InputError>(trimmed(s)),
{
    let t = trimmed(s);
    assert forall|j: int| 0 <= j < t.len() implies !(control_pred())(t[j]) by {
        assert(!is_control_char(t[j]));
    }
    lemma_scan_from(t, control_pred(), 0, t.len() as int);
}

/// An input whose trimmed character count exceeds the limit is rejected as
/// too long, and the reported count is the exact trimmed count.
pub proof fn lemma_sanitize_reports_exact_length(s: Seq<char>, max_len: usize)
    requires
        trimmed(s).len() > max_len,
    ensures
        sanitize_spec(s, max_len) == Err::<Seq<char>, InputError>(
            InputError::TooLong { max: max_len, actual: trimmed(s).len() as usize },
        ),
{
}

/// When the trimmed input fits the limit but holds a control character, the
/// reported character is the first offending one in order, not any other.
pub proof fn lemma_sanitize_reports_first_control(s: Seq<char>, max_len: usize, i: int)
    requires
        trimmed(s).len() <= max_len,
        0 <= i < trimmed(s).len(),
        is_control_char(trimmed(s)[i]),
        forall|j: int| 0 <= j < i ==> !is_control_char(trimmed(s)[j]),
    ensures
        sanitize_spec(s, max_len) == Err::<Seq<char>, InputError>(
            InputError::InvalidCharacter(trimmed(s)[i]),
        ),
{
    let t = trimmed(s);
    assert forall|j: int| 0 <= j < i implies !(control_pred())(t[j]) by {
        assert(!is_control_char(t[j]));
    }
    assert((control_pred())(t[i]));
    lemma_scan_from(t, control_pred(), 0, i);
}

/// Sanitizes a raw string by trimming whitespace, rejecting control
/// characters and enforcing a maximum character count.
///
/// The returned string is exactly the whitespace-trimmed form of the input
/// (any trailing line terminator included in that trimming); it is
/// guaranteed to be non-empty, contain no control characters, and hold at
/// most `max_len` characters.  A rejection reports the exact trimmed length
/// or the first offending character, as [`sanitize_spec`] states.
pub fn sanitize_text(raw: &str, max_len: usize) -> (r: Result<String, InputError>)
    ensures
        match r {
            Ok(out) => sanitize_spec(raw@, max_len) == Ok::<Seq<char>, InputError>(out@),
            Err(e) => sanitize_spec(raw@, max_len) == Err::<Seq<char>, InputError>(e),
        },
{
    let n = raw.unicode_len();
    let mut end: usize = n;
    loop
        invariant
            end <= n,
            n == raw@.len(),
            forall|i: int| end <= i < n ==> is_space_char(raw@[i]),
        ensures
            end <= n,
            forall|i: int| end <= i < n ==> is_space_char(raw@[i]),
            end > 0 ==> !is_space_char(raw@[end - 1]),
        decreases end,
    {
        if end == 0 {
            break ;
        }
        let c = raw.get_char(end - 1);
        if !check_space(c) {
            break ;
        }
        end = end - 1;
    }
    let mut start: usize = 0;
    loop
        invariant
            start <= end,
            end <= n,
            n == raw@.len(),
            forall|i: int| 0 <= i < start ==> is_space_char(raw@[i]),
        ensures
            start <= end,
            forall|i: int| 0 <= i < start ==> is_space_char(raw@[i]),
            start < end ==> !is_space_char(raw@[start as int]),
        decreases end - start,
    {
        if start == end {
            break ;
        }
        let c = raw.get_char(start);
        if !check_space(c) {
            break ;
        }
        start = start + 1;
    }
    proof {
        lemma_trim_end_take(raw@, end as int);
        lemma_trim_start_skip(raw@.take(end as int), start as int);
        assert(raw@.take(end as int).skip(start as int) =~= raw@.subrange(
            start as int,
            end as int,
        ));
    }
    let len = end - start;
    if len == 0 {
        return Err(InputError::Empty);
    }
    if len > max_len {
        return Err(InputError::TooLong { max: max_len, actual: len });
    }
    let ghost t = trimmed(raw@);
    let mut i = start;
    loop
        invariant
            start <= i <= end,
            end <= n,
            n == raw@.len(),
            t == trimmed(raw@),
            t == raw@.subrange(start as int, end as int),
            0 < end - start <= max_len,
            forall|j: int| start <= j < i ==> !is_control_char(raw@[j]),
        ensures
            start <= i <= end,
            forall|j: int| start <= j < i ==> !is_control_char(raw@[j]),
            i == end,
        decreases end - i,
    {
        if i == end {
            break ;
        }
        let c = raw.get_char(i);
        if check_control(c) {
            proof {
                assert forall|j: int| 0 <= j < i - start implies !(control_pred())(t[j]) by {
                    assert(t[j] == raw@[start + j]);
                }
                assert((control_pred())(t[i - start]));
                lemma_scan_from(t, control_pred(), 0, i - start);
            }
            return Err(InputError::InvalidCharacter(c));
        }
        i = i + 1;
    }
    proof {
        assert forall|j: int| 0 <= j < t.len() implies !(control_pred())(t[j]) by {
            assert(t[j] == raw@[start + j]);
        }
        lemma_scan_from(t, control_pred(), 0, t.len() as int);
    }
    let cleaned = raw.substring_char(start, end);
    Ok(cleaned.to_owned())
}

/// Sanitizes a string intended for user-facing display, such as a name or a
/// title.
///
/// This is the Text Sanitizer's policy with one addition: a result that is
/// entirely whitespace-equivalent after cleaning is rejected as empty, so a
/// success always contains at least one visible character.
pub fn sanitize_display_label(raw: &str, max_len: usize) -> (r: Result<String, InputError>)
    ensures
        match r {
            Ok(out) => sanitize_spec(raw@, max_len) == Ok::<Seq<char>, InputError>(out@)
                && out@.len() > 0 && !is_space_char(out@[0]),
            Err(e) => sanitize_spec(raw@, max_len) == Err::<Seq<char>, InputError>(e),
        },
{
    let cleaned = match sanitize_text(raw, max_len) {
        Ok(s) => s,
        Err(e) => {
            return Err(e);
        },
    };
    let n = cleaned.as_str().unicode_len();
    let mut i: usize = 0;
    loop
        invariant
            i <= n,
            n == cleaned@.len(),
            forall|j: int| 0 <= j < i ==> is_space_char(cleaned@[j]),
        ensures
            i <= n,
            forall|j: int| 0 <= j < i ==> is_space_char(cleaned@[j]),
            i < n ==> !is_space_char(cleaned@[i as int]),
        decreases n - i,
    {
        if i == n {
            break ;
        }
        let c = cleaned.as_str().get_char(i);
        if !check_space(c) {
            break ;
        }
        i = i + 1;
    }
    proof {
        lemma_trimmed_first_visible(raw@);
    }
    if i < n {
        return Ok(cleaned);
    }
    // The result was whitespace throughout: treat it as blank input.  A
    // trimmed success always begins with a visible character, so this
    // branch is provably unreachable; it stays as the policy's last line
    // of defense.
    Err(InputError::Empty)
}

} // verus!
