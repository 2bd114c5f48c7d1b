//! Substring search over byte sequences, as a model and through bstr.

use bstr::ByteSlice;
use vstd::prelude::*;

verus! {

/// `n` occurs in `h` at offset `i`.
pub open spec fn occurs_at(h: Seq<u8>, n: Seq<u8>, i: int) -> bool {
    0 <= i && i + n.len() <= h.len() && h.subrange(i, i + n.len()) == n
}

/// `n` occurs somewhere in `h`.
pub open spec fn contains_seq(h: Seq<u8>, n: Seq<u8>) -> bool {
    exists|i: int| occurs_at(h, n, i)
}

/// `i` is the leftmost offset at which `n` occurs in `h`.
pub open spec fn is_first_occurrence(h: Seq<u8>, n: Seq<u8>, i: int) -> bool {
    &&& occurs_at(h, n, i)
    &&& forall|j: int| 0 <= j < i ==> !occurs_at(h, n, j)
}

/// `i` is the rightmost offset at which `n` occurs in `h`.
pub open spec fn is_last_occurrence(h: Seq<u8>, n: Seq<u8>, i: int) -> bool {
    &&& occurs_at(h, n, i)
    &&& forall|j: int| i < j <= h.len() ==> !occurs_at(h, n, j)
}

/// The leftmost occurrence is the one that `choose` picks.
pub(crate) proof fn lemma_first_unique(h: Seq<u8>, n: Seq<u8>, i: int)
    requires
        is_first_occurrence(h, n, i),
    ensures
        (choose|k: int| is_first_occurrence(h, n, k)) == i,
{
    let k = choose|k: int| is_first_occurrence(h, n, k);
    assert(is_first_occurrence(h, n, k));
    if k < i {
        assert(!occurs_at(h, n, k));
    }
    if i < k {
        assert(!occurs_at(h, n, i));
    }
}

/// The rightmost occurrence is the one that `choose` picks.
pub(crate) proof fn lemma_last_unique(h: Seq<u8>, n: Seq<u8>, i: int)
    requires
        is_last_occurrence(h, n, i),
    ensures
        (choose|k: int| is_last_occurrence(h, n, k)) == i,
{
    let k = choose|k: int| is_last_occurrence(h, n, k);
    assert(is_last_occurrence(h, n, k));
    if k < i {
        assert(!occurs_at(h, n, i)) by {
            assert(k < i <= h.len());
        }
    }
    if i < k {
        assert(!occurs_at(h, n, k));
    }
}

/// Relies on bstr's `ByteSlice::find`: the offset of the first occurrence of
/// `n` in `h`, or `None` where `n` does not occur (an empty `n` occurs at 0).
#[verifier::external_body]
pub(crate) fn find_first(h: &[u8], n: &[u8]) -> (r: Option<usize>)
    ensures
        match r {
            Some(i) => is_first_occurrence(h@, n@, i as int),
            None => !contains_seq(h@, n@),
        },
{
    h.find(n)
}

/// Relies on bstr's `ByteSlice::rfind`: the offset of the last occurrence of
/// `n` in `h`, or `None` where `n` does not occur (an empty `n` occurs at the
/// end).
#[verifier::external_body]
pub(crate) fn find_last(h: &[u8], n: &[u8]) -> (r: Option<usize>)
    ensures
        match r {
            Some(i) => is_last_occurrence(h@, n@, i as int),
            None => !contains_seq(h@, n@),
        },
{
    h.rfind(n)
}

/// Relies on bstr's `ByteSlice::contains_str`: whether `n` occurs in `h`.
#[verifier::external_body]
pub(crate) fn contains_bytes(h: &[u8], n: &[u8]) -> (r: bool)
    ensures
        r == contains_seq(h@, n@),
{
    h.contains_str(n)
}

} // verus!
