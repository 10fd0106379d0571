//! The Numeric Parser: a range-checked conversion of cleaned digits into a
//! `u32`, built on the Text Sanitizer.

use crate::chars::{check_digit, digit_val, is_digit_char};
use crate::errors::InputError;
use crate::sanitize::{sanitize_spec, sanitize_text};
use crate::scan::{lemma_scan_from, scan_from};
use vstd::prelude::*;
use vstd::string::StrSliceExecFns;

verus! {

/// The number of decimal digits in `u32::MAX`, used as the length bound the
/// parser hands to the Text Sanitizer.  An all-digit input longer than this
/// cannot fit in a `u32`, so it is rejected as too long before parsing.
pub const U32_DIGITS: usize = 10;

/// The predicate the digit-class scan looks for: a character that is not an
/// ASCII decimal digit.
pub open spec fn nondigit_pred() -> spec_fn(char) -> bool {
    |c: char| !is_digit_char(c)
}

/// The value of a sequence of ASCII decimal digits read in base ten.
pub open spec fn digits_value(s: Seq<char>) -> int
    decreases s.len(),
{
    if s.len() == 0 {
        0
    } else {
        digits_value(s.drop_last()) * 10 + digit_val(s.last())
    }
}

/// Ten raised to the given power.
pub open spec fn pow10(n: nat) -> int
    decreases n,
{
    if n == 0 {
        1
    } else {
        10 * pow10((n - 1) as nat)
    }
}

/// A sequence of `n` digits reads as a value below `pow10(n)`.
proof fn lemma_digits_value_bound(s: Seq<char>)
    requires
        forall|i: int| 0 <= i < s.len() ==> is_digit_char(s[i]),
    ensures
        0 <= digits_value(s) < pow10(s.len()),
    decreases s.len(),
{
    if s.len() > 0 {
        lemma_digits_value_bound(s.drop_last());
    }
}

/// `pow10` grows monotonically.
proof fn lemma_pow10_le(a: nat, b: nat)
    requires
        a <= b,
    ensures
        pow10(a) <= pow10(b),
    decreases b,
{
    if a < b {
        lemma_pow10_le(a, (b - 1) as nat);
        lemma_pow10_pos((b - 1) as nat);
    }
}

/// `pow10` is positive.
proof fn lemma_pow10_pos(n: nat)
    ensures
        pow10(n) >= 1,
    decreases n,
{
    if n > 0 {
        lemma_pow10_pos((n - 1) as nat);
    }
}

/// The decision of the Numeric Parser on input `s`: the base-ten value of
/// the cleaned digits when they all are digits and the value fits in a
/// `u32`; otherwise the sanitizer's rejection, the first non-digit
/// character, or an overflow report, in that order of checks.
pub open spec fn parse_u32_spec(s: Seq<char>) -> Result<u32, InputError> {
    match sanitize_spec(s, U32_DIGITS) {
        Err(e) => Err(e),
        Ok(t) => {
            let fd = scan_from(t, nondigit_pred(), 0);
            if fd < t.len() {
                Err(InputError::InvalidCharacter(t[fd]))
            } else if digits_value(t) > u32::MAX {
                Err(InputError::NumericOverflow)
            } else {
                Ok(digits_value(t) as u32)
            }
        },
    }
}

/// Parses a positive 32-bit unsigned integer from user-provided input.
///
/// The input is first cleaned by the Text Sanitizer with the fixed limit
/// [`U32_DIGITS`]; the remaining characters must all be ASCII decimal
/// digits (a sign, point, or separator is rejected as the first invalid
/// character), and the value they denote must fit in a `u32`.  The exact
/// outcome for every input is stated by [`parse_u32_spec`]: a value too
/// large is reported, never wrapped or truncated.
pub fn parse_positive_u32(input: &str) -> (r: Result<u32, InputError>)
    ensures
        match r {
            Ok(v) => parse_u32_spec(input@) == Ok::<u32, InputError>(v),
            Err(e) => parse_u32_spec(input@) == Err::<u32, InputError>(e),
        },
{
    let cleaned = match sanitize_text(input, U32_DIGITS) {
        Ok(s) => s,
        Err(e) => {
            return Err(e);
        },
    };
    let ghost t = cleaned@;
    let n = cleaned.as_str().unicode_len();
    let mut i: usize = 0;
    let mut value: u64 = 0;
    loop
        invariant
            i <= n,
            n == t.len(),
            t == cleaned@,
            n <= U32_DIGITS,
            sanitize_spec(input@, U32_DIGITS) == Ok::<Seq<char>, InputError>(t),
            forall|j: int| 0 <= j < i ==> is_digit_char(t[j]),
            value == digits_value(t.take(i as int)),
        ensures
            i == n,
            forall|j: int| 0 <= j < i ==> is_digit_char(t[j]),
            value == digits_value(t.take(i as int)),
        decreases n - i,
    {
        if i == n {
            break ;
        }
        let c = cleaned.as_str().get_char(i);
        if !check_digit(c) {
            proof {
                lemma_scan_from(t, nondigit_pred(), 0, i as int);
            }
            return Err(InputError::InvalidCharacter(c));
        }
        let d = (c as u32) - 0x30;
        proof {
            lemma_digits_value_bound(t.take(i as int));
            lemma_pow10_le((i as int) as nat, 9);
            assert(pow10(9) == 1000000000) by {
                assert(pow10(0) == 1);
                assert(pow10(1) == 10);
                assert(pow10(2) == 100);
                assert(pow10(3) == 1000);
                assert(pow10(4) == 10000);
                assert(pow10(5) == 100000);
                assert(pow10(6) == 1000000);
                assert(pow10(7) == 10000000);
                assert(pow10(8) == 100000000);
            }
            assert(t.take(i as int + 1).drop_last() =~= t.take(i as int));
            assert(t.take(i as int + 1).last() == t[i as int]);
        }
        value = value * 10 + (d as u64);
        i = i + 1;
    }
    proof {
        lemma_scan_from(t, nondigit_pred(), 0, t.len() as int);
        assert(t.take(n as int) =~= t);
    }
    if value > 0xFFFF_FFFF {
        return Err(InputError::NumericOverflow);
    }
    Ok(value as u32)
}

} // verus!
