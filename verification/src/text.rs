//! Byte-string predicates used to recognise attachments.

use vstd::prelude::*;

verus! {

/// `s` ends with `suffix` (byte-wise, as `str::ends_with` compares).
pub open spec fn ends_with(s: Seq<u8>, suffix: Seq<u8>) -> bool {
    suffix.len() <= s.len() && s.subrange(s.len() - suffix.len(), s.len() as int) == suffix
}

/// `pat` occurs in `s` at position `i`.
pub open spec fn occurs_at(s: Seq<u8>, pat: Seq<u8>, i: int) -> bool {
    0 <= i && i + pat.len() <= s.len() && s.subrange(i, i + pat.len()) == pat
}

/// `pat` occurs somewhere in `s` (byte-wise, as `str::contains` with a `&str` pattern).
pub open spec fn contains(s: Seq<u8>, pat: Seq<u8>) -> bool {
    exists|i: int| occurs_at(s, pat, i)
}

/// `s` ends with `suffix` exactly when `s` is some prefix followed by
/// `suffix`; `pat` occurs in `s` exactly when `s` is some prefix, then
/// `pat`, then some rest.
pub proof fn lemma_suffix_and_infix(s: Seq<u8>, pat: Seq<u8>, pre: Seq<u8>, post: Seq<u8>)
    ensures
        ends_with(pre + pat, pat),
        contains(pre + pat + post, pat),
        ends_with(s, pat) ==> s == s.subrange(0, s.len() - pat.len()) + pat,
        ends_with(s, pat) ==> contains(s, pat),
        !contains(s, pat) ==> !ends_with(s, pat),
        pat.len() > s.len() ==> !contains(s, pat),
{
    assert((pre + pat).subrange(pre.len() as int, (pre + pat).len() as int) =~= pat);
    let w = pre + pat + post;
    assert(w.subrange(pre.len() as int, (pre.len() + pat.len()) as int) =~= pat);
    assert(occurs_at(w, pat, pre.len() as int));
    if ends_with(s, pat) {
        assert(s =~= s.subrange(0, s.len() - pat.len()) + pat);
        assert(occurs_at(s, pat, s.len() - pat.len()));
    }
}

/// Whether `s[start..start + pat.len()]` equals `pat`.
fn matches_at(s: &[u8], pat: &[u8], start: usize) -> (r: bool)
    requires
        start + pat@.len() <= s@.len(),
    ensures
        r == (s@.subrange(start as int, start + pat@.len()) == pat@),
{
    let slen = s.len();
    let mut j: usize = 0;
    while j < pat.len()
        invariant
            start + pat@.len() <= s@.len(),
            slen == s@.len(),
            j <= pat@.len(),
            forall|k: int| 0 <= k < j ==> s@[start + k] == pat@[k],
        decreases pat.len() - j,
    {
        if s[start + j] != pat[j] {
            assert(s@.subrange(start as int, start + pat@.len())[j as int] != pat@[j as int]);
            return false;
        }
        j = j + 1;
    }
    assert(s@.subrange(start as int, start + pat@.len()) =~= pat@);
    true
}

/// Byte-wise suffix test.
pub fn bytes_end_with(s: &[u8], suffix: &[u8]) -> (r: bool)
    ensures
        r == ends_with(s@, suffix@),
{
    if suffix.len() > s.len() {
        return false;
    }
    matches_at(s, suffix, s.len() - suffix.len())
}

/// Byte-wise substring test.
pub fn bytes_contain(s: &[u8], pat: &[u8]) -> (r: bool)
    ensures
        r == contains(s@, pat@),
{
    if pat.len() == 0 {
        assert(s@.subrange(0, 0) =~= pat@);
        assert(occurs_at(s@, pat@, 0));
        return true;
    }
    if pat.len() > s.len() {
        assert forall|i: int| !occurs_at(s@, pat@, i) by {}
        return false;
    }
    let slen = s.len();
    let last = slen - pat.len();
    let mut i: usize = 0;
    while i <= last
        invariant
            last + pat@.len() == s@.len(),
            slen == s@.len(),
            pat@.len() > 0,
            forall|k: int| 0 <= k < i ==> !occurs_at(s@, pat@, k),
        decreases last + 1 - i,
    {
        if matches_at(s, pat, i) {
            assert(occurs_at(s@, pat@, i as int));
            return true;
        }
        i = i + 1;
    }
    assert forall|k: int| !occurs_at(s@, pat@, k) by {
        if 0 <= k && k + pat@.len() <= s@.len() {
            assert(k < i);
        }
    }
    false
}

/// Byte-wise equality.
pub fn bytes_equal(a: &[u8], b: &[u8]) -> (r: bool)
    ensures
        r == (a@ == b@),
{
    if a.len() != b.len() {
        return false;
    }
    let r = matches_at(a, b, 0);
    assert(a@.subrange(0, b@.len() as int) =~= a@);
    r
}

} // verus!
