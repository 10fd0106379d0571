//! Finding the first element of a sequence that satisfies a predicate.
//!
//! The sanitization policy reports the *first* offending character of an
//! input, so its specifications need a common notion of "the least index
//! where a predicate holds".

use vstd::prelude::*;

verus! {

/// The least index at or after `i` where `p` holds in `s`, or `s.len()` when
/// no element from `i` onward satisfies `p`.
pub open spec fn scan_from<T>(s: Seq<T>, p: spec_fn(T) -> bool, i: int) -> int
    decreases s.len() - i,
{
    if i < 0 || i >= s.len() {
        s.len() as int
    } else if p(s[i]) {
        i
    } else {
        scan_from(s, p, i + 1)
    }
}

/// Characterizes `scan_from` by a witness `k`: if nothing in `[i, k)`
/// satisfies `p`, and `k` itself does unless `k` is the end of the
/// sequence, then the scan stops exactly at `k` (or at the end).
pub proof fn lemma_scan_from<T>(s: Seq<T>, p: spec_fn(T) -> bool, i: int, k: int)
    requires
        0 <= i <= k <= s.len(),
        forall|j: int| i <= j < k ==> !p(s[j]),
        k < s.len() ==> p(s[k]),
    ensures
        scan_from(s, p, i) == if k < s.len() {
            k
        } else {
            s.len() as int
        },
    decreases k - i,
{
    if i < k {
        lemma_scan_from(s, p, i + 1, k);
    }
}

/// The scan never reports an index before its starting point.
proof fn lemma_scan_from_ge<T>(s: Seq<T>, p: spec_fn(T) -> bool, i: int)
    requires
        0 <= i <= s.len(),
    ensures
        scan_from(s, p, i) >= i,
    decreases s.len() - i,
{
    if i < s.len() && !p(s[i]) {
        lemma_scan_from_ge(s, p, i + 1);
    }
}

/// The scan cannot stop before an index when nothing up to it satisfies the
/// predicate.
pub proof fn lemma_scan_from_lower<T>(s: Seq<T>, p: spec_fn(T) -> bool, i: int, k: int)
    requires
        0 <= i <= k <= s.len(),
        forall|j: int| i <= j < k ==> !p(s[j]),
    ensures
        scan_from(s, p, i) >= k,
    decreases k - i,
{
    if i < k {
        lemma_scan_from_lower(s, p, i + 1, k);
    } else {
        lemma_scan_from_ge(s, p, i);
    }
}

} // verus!
