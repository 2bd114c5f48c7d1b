//! Replacing occurrences of one byte sequence by another.

use crate::bytes::PyBytes;
use crate::object::BytesError;
use crate::search::{contains_seq, find_first, is_first_occurrence, lemma_first_unique};
use crate::split::next_limit;
use vstd::prelude::*;

verus! {

/// `h` with its leftmost occurrences of `old` replaced by `new`, at most
/// `k` of them (all where `k` is negative). An empty `old` occurs before
/// every byte and at the end.
pub open spec fn replaced(h: Seq<u8>, old: Seq<u8>, new: Seq<u8>, k: int) -> Seq<u8>
    decreases h.len(),
{
    if old.len() == 0 {
        if k == 0 {
            h
        } else if h.len() == 0 {
            new
        } else {
            new + seq![h[0]] + replaced(h.drop_first(), old, new, next_limit(k))
        }
    } else if k != 0 && contains_seq(h, old) {
        let i = choose|i: int| is_first_occurrence(h, old, i);
        if 0 <= i && i + old.len() <= h.len() {
            h.subrange(0, i) + new + replaced(h.subrange(i + old.len() as int, h.len() as int), old, new, next_limit(k))
        } else {
            h
        }
    } else {
        h
    }
}

/// Appends `s` to `out` unless the result would pass `isize::MAX` bytes;
/// tells whether it did.
fn push_within(out: &mut Vec<u8>, s: &[u8]) -> (ok: bool)
    requires
        old(out)@.len() <= isize::MAX,
    ensures
        ok == (old(out)@.len() + s@.len() <= isize::MAX),
        ok ==> final(out)@ == old(out)@ + s@,
        !ok ==> final(out)@ == old(out)@,
{
    if s.len() > (isize::MAX as usize) - out.len() {
        return false;
    }
    let ghost start = out@;
    let mut j: usize = 0;
    while j < s.len()
        invariant
            j <= s@.len(),
            start.len() + s@.len() <= isize::MAX,
            out@ == start + s@.subrange(0, j as int),
        decreases s@.len() - j,
    {
        out.push(s[j]);
        j += 1;
        assert(out@ =~= start + s@.subrange(0, j as int));
    }
    assert(s@.subrange(0, s@.len() as int) =~= s@);
    true
}

impl PyBytes {
    /// A new value with the leftmost occurrences of `old` replaced by
    /// `new`, at most `count` of them (all where `count` is negative). A
    /// result longer than `isize::MAX` bytes is an overflow error.
    pub fn replace(&self, old: &[u8], new: &[u8], count: isize) -> (r: Result<PyBytes, BytesError>)
        ensures
            replaced(self@, old@, new@, count as int).len() > isize::MAX ==> r == Err::<PyBytes, BytesError>(BytesError::Overflow),
            replaced(self@, old@, new@, count as int).len() <= isize::MAX ==> (r matches Ok(b) && b@ == replaced(self@, old@, new@, count as int)),
    {
        let h = self.as_bytes();
        let hl = h.len();
        let ghost whole = replaced(h@, old@, new@, count as int);
        let mut out: Vec<u8> = Vec::new();
        let mut pos: usize = 0;
        let mut k: isize = count;
        assert(h@.subrange(0, hl as int) =~= h@);
        if old.len() == 0 {
            while pos < hl && k != 0
                invariant
                    hl == h@.len(),
                    h@ == self@,
                    old@.len() == 0,
                    pos <= hl,
                    out@.len() <= isize::MAX,
                    whole == replaced(self@, old@, new@, count as int),
                    out@ + replaced(h@.subrange(pos as int, hl as int), old@, new@, k as int) == whole,
                decreases hl - pos,
            {
                let ghost rest = h@.subrange(pos as int, hl as int);
                let ghost tail = replaced(rest.drop_first(), old@, new@, next_limit(k as int));
                assert(rest.drop_first() =~= h@.subrange(pos + 1, hl as int));
                assert(replaced(rest, old@, new@, k as int) == new@ + seq![rest[0]] + tail);
                let ghost before = out@;
                if !push_within(&mut out, new) {
                    assert(whole.len() >= before.len() + new@.len());
                    return Err(BytesError::Overflow);
                }
                let one = [h[pos]];
                assert(one@ =~= seq![rest[0]]);
                if !push_within(&mut out, &one) {
                    assert(whole.len() >= before.len() + new@.len() + 1);
                    return Err(BytesError::Overflow);
                }
                assert(out@ + tail =~= before + (new@ + seq![rest[0]] + tail));
                pos += 1;
                if k > 0 {
                    k -= 1;
                }
            }
            let ghost rest = h@.subrange(pos as int, hl as int);
            let tail: &[u8] = if k == 0 { &h[pos..hl] } else { new };
            assert(replaced(rest, old@, new@, k as int) == tail@);
            if !push_within(&mut out, tail) {
                return Err(BytesError::Overflow);
            }
            return Ok(PyBytes::from(out));
        }
        loop
            invariant
                hl == h@.len(),
                h@ == self@,
                old@.len() > 0,
                pos <= hl,
                out@.len() <= isize::MAX,
                whole == replaced(self@, old@, new@, count as int),
                out@ + replaced(h@.subrange(pos as int, hl as int), old@, new@, k as int) == whole,
            decreases hl - pos,
        {
            let rest = &h[pos..hl];
            let found = if k == 0 { None } else { find_first(rest, old) };
            match found {
                Some(i) => {
                    let ghost after = h@.subrange(pos + i + old@.len(), hl as int);
                    let ghost tail = replaced(after, old@, new@, next_limit(k as int));
                    proof {
                        lemma_first_unique(rest@, old@, i as int);
                        assert(rest@.subrange(i + old@.len(), rest@.len() as int) =~= after);
                        assert(replaced(rest@, old@, new@, k as int) == rest@.subrange(0, i as int) + new@ + tail);
                    }
                    let ghost before = out@;
                    if !push_within(&mut out, &rest[0..i]) {
                        assert(whole.len() >= before.len() + i);
                        return Err(BytesError::Overflow);
                    }
                    if !push_within(&mut out, new) {
                        assert(whole.len() >= before.len() + i + new@.len());
                        return Err(BytesError::Overflow);
                    }
                    assert(out@ + tail =~= before + (rest@.subrange(0, i as int) + new@ + tail));
                    pos = pos + i + old.len();
                    if k > 0 {
                        k -= 1;
                    }
                },
                None => {
                    assert(replaced(rest@, old@, new@, k as int) == rest@);
                    if !push_within(&mut out, rest) {
                        return Err(BytesError::Overflow);
                    }
                    return Ok(PyBytes::from(out));
                },
            }
        }
    }
}

} // verus!
