//! Verified text helpers used by location resolution, detectors and the
//! self-verification scanner.

use vstd::prelude::*;

verus! {

/// `sub` occurs in `s` starting at position `k`.
pub open spec fn occurs_at(s: Seq<char>, sub: Seq<char>, k: int) -> bool {
    0 <= k && k + sub.len() <= s.len() && s.subrange(k, k + sub.len()) == sub
}

/// `sub` occurs somewhere in `s`.
pub open spec fn spec_contains_sub(s: Seq<char>, sub: Seq<char>) -> bool {
    exists|k: int| occurs_at(s, sub, k)
}

/// The first occurrence of `sub` in `s`, if any.
pub open spec fn spec_find_sub(s: Seq<char>, sub: Seq<char>) -> Option<int> {
    if spec_contains_sub(s, sub) {
        Some(first_occurrence(s, sub, 0))
    } else {
        None
    }
}

/// The first position at or after `k` where `sub` occurs (meaningful only
/// when one exists).
pub open spec fn first_occurrence(s: Seq<char>, sub: Seq<char>, k: int) -> int
    decreases s.len() - k,
{
    if occurs_at(s, sub, k) || k >= s.len() || k < 0 {
        k
    } else {
        first_occurrence(s, sub, k + 1)
    }
}

/// Whether the characters of `sub` stand at position `at` of `s`.
fn matches_at(s: &str, sub: &str, at: usize) -> (r: bool)
    requires
        at + sub@.len() <= s@.len(),
    ensures
        r == occurs_at(s@, sub@, at as int),
{
    let slen = s.unicode_len();
    let n = sub.unicode_len();
    let mut i: usize = 0;
    while i < n
        invariant
            0 <= i <= n,
            n == sub@.len(),
            slen == s@.len(),
            at + n <= s@.len(),
            forall|q: int| 0 <= q < i ==> s@[at + q] == sub@[q],
        decreases n - i,
    {
        if s.get_char(at + i) != sub.get_char(i) {
            proof {
                assert(s@.subrange(at as int, at + sub@.len())[i as int] == s@[at + i]);
            }
            return false;
        }
        i = i + 1;
    }
    proof {
        assert(s@.subrange(at as int, at + sub@.len()) =~= sub@);
    }
    true
}

/// Whether `sub` occurs in `s`, by scanning every position.
pub fn contains_sub(s: &str, sub: &str) -> (r: bool)
    ensures
        r == spec_contains_sub(s@, sub@),
{
    match find_sub(s, sub) {
        Some(_) => true,
        None => false,
    }
}

/// The first position where `sub` occurs in `s`.
pub fn find_sub(s: &str, sub: &str) -> (r: Option<usize>)
    ensures
        match r {
            Some(k) => occurs_at(s@, sub@, k as int) && spec_find_sub(s@, sub@) == Some(k as int),
            None => !spec_contains_sub(s@, sub@),
        },
{
    let n = s.unicode_len();
    let m = sub.unicode_len();
    if m > n {
        proof {
            assert forall|k: int| !occurs_at(s@, sub@, k) by {}
        }
        return None;
    }
    let mut k: usize = 0;
    loop
        invariant
            0 <= k <= n - m,
            m <= n,
            n == s@.len(),
            m == sub@.len(),
            forall|q: int| 0 <= q < k ==> !occurs_at(s@, sub@, q),
        ensures
            forall|q: int| 0 <= q <= n - m ==> !occurs_at(s@, sub@, q),
        decreases n - m - k,
    {
        if matches_at(s, sub, k) {
            proof {
                lemma_first_occurrence(s@, sub@, 0, k as int);
            }
            return Some(k);
        }
        if k == n - m {
            break ;
        }
        k = k + 1;
    }
    proof {
        assert forall|q: int| !occurs_at(s@, sub@, q) by {
            if occurs_at(s@, sub@, q) {
                assert(0 <= q <= n - m);
            }
        }
    }
    None
}

proof fn lemma_first_occurrence(s: Seq<char>, sub: Seq<char>, from: int, k: int)
    requires
        0 <= from <= k,
        occurs_at(s, sub, k),
        forall|q: int| 0 <= q < k ==> !occurs_at(s, sub, q),
    ensures
        first_occurrence(s, sub, from) == k,
        spec_contains_sub(s, sub),
    decreases k - from,
{
    if from < k {
        lemma_first_occurrence(s, sub, from + 1, k);
    }
}

/// Whether the characters of `s` end with those of `suffix`.
pub open spec fn spec_ends_with(s: Seq<char>, suffix: Seq<char>) -> bool {
    suffix.len() <= s.len() && s.subrange(s.len() - suffix.len(), s.len() as int) == suffix
}

/// Whether `s` ends with `suffix`.
pub fn ends_with(s: &str, suffix: &str) -> (r: bool)
    ensures
        r == spec_ends_with(s@, suffix@),
{
    let n = s.unicode_len();
    let m = suffix.unicode_len();
    if m > n {
        return false;
    }
    let r = matches_at(s, suffix, n - m);
    proof {
        if r {
            assert(s@.subrange(s@.len() - suffix@.len(), s@.len() as int) =~= s@.subrange(
                n - m,
                n - m + suffix@.len(),
            ));
        } else {
            if spec_ends_with(s@, suffix@) {
                assert(s@.subrange(n - m, n - m + suffix@.len()) =~= s@.subrange(
                    s@.len() - suffix@.len(),
                    s@.len() as int,
                ));
            }
        }
    }
    r
}

} // verus!
