//! Byte-for-byte translation through a table of 256 entries.

use crate::bytes::PyBytes;
use crate::object::BytesError;
use vstd::prelude::*;

verus! {

/// The table that maps the first `k` bytes of `from` to those of `to`, a
/// later pair overriding an earlier one, and every other byte to itself.
pub open spec fn trans_table(from: Seq<u8>, to: Seq<u8>, k: int) -> Seq<u8>
    decreases k,
{
    if k <= 0 {
        Seq::new(256, |c: int| c as u8)
    } else {
        trans_table(from, to, k - 1).update(from[k - 1] as int, to[k - 1])
    }
}

/// `s` without the bytes in `delete`, the rest mapped through `table`
/// (left as they are where there is no table).
pub open spec fn translated(s: Seq<u8>, table: Option<Seq<u8>>, delete: Seq<u8>) -> Seq<u8>
    decreases s.len(),
{
    if s.len() == 0 {
        Seq::empty()
    } else {
        let c = s.last();
        let rest = translated(s.drop_last(), table, delete);
        if delete.contains(c) {
            rest
        } else {
            match table {
                Some(t) => rest.push(t[c as int]),
                None => rest.push(c),
            }
        }
    }
}

fn member(s: &[u8], x: u8) -> (r: bool)
    ensures
        r == s@.contains(x),
{
    let mut i: usize = 0;
    while i < s.len()
        invariant
            i <= s@.len(),
            forall|j: int| 0 <= j < i ==> s@[j] != x,
        decreases s@.len() - i,
    {
        if s[i] == x {
            assert(s@[i as int] == x);
            return true;
        }
        i += 1;
    }
    false
}

impl PyBytes {
    /// The translation table that maps each byte of `from` to the byte of
    /// `to` at the same place; arguments of unequal length are a value
    /// error.
    pub fn maketrans(from: &[u8], to: &[u8]) -> (r: Result<Vec<u8>, BytesError>)
        ensures
            from@.len() != to@.len() ==> r == Err::<Vec<u8>, BytesError>(BytesError::UnequalLengths),
            from@.len() == to@.len() ==> (r matches Ok(t) && t@ == trans_table(from@, to@, from@.len() as int)),
    {
        if from.len() != to.len() {
            return Err(BytesError::UnequalLengths);
        }
        let mut t: Vec<u8> = Vec::new();
        let mut c: usize = 0;
        while c < 256
            invariant
                c <= 256,
                t@.len() == c,
                forall|j: int| 0 <= j < c ==> t@[j] == j as u8,
            decreases 256 - c,
        {
            t.push(c as u8);
            c += 1;
        }
        assert(t@ =~= trans_table(from@, to@, 0));
        let mut k: usize = 0;
        while k < from.len()
            invariant
                k <= from@.len(),
                from@.len() == to@.len(),
                t@ == trans_table(from@, to@, k as int),
                t@.len() == 256,
            decreases from@.len() - k,
        {
            t.set(from[k] as usize, to[k]);
            k += 1;
        }
        Ok(t)
    }

    /// A new value without the bytes in `delete`, the rest mapped through
    /// `table`; a table that does not have 256 entries is a value error.
    pub fn translate(&self, table: Option<&[u8]>, delete: &[u8]) -> (r: Result<PyBytes, BytesError>)
        ensures
            table matches Some(t) && t@.len() != 256 ==> r == Err::<PyBytes, BytesError>(BytesError::BadTableLength),
            !(table matches Some(t) && t@.len() != 256) ==> (r matches Ok(b) && b@ == translated(
                self@,
                match table { Some(t) => Some(t@), None => None },
                delete@,
            )),
    {
        if let Some(t) = table {
            if t.len() != 256 {
                return Err(BytesError::BadTableLength);
            }
        }
        let ghost tv = match table { Some(t) => Some(t@), None => None::<Seq<u8>> };
        let s = self.as_bytes();
        let mut out: Vec<u8> = Vec::new();
        let mut i: usize = 0;
        assert(s@.subrange(0, 0) =~= Seq::<u8>::empty());
        while i < s.len()
            invariant
                i <= s@.len(),
                tv == (match table { Some(t) => Some(t@), None => None::<Seq<u8>> }),
                table matches Some(t) ==> t@.len() == 256,
                out@ == translated(s@.subrange(0, i as int), tv, delete@),
                out@.len() <= i,
            decreases s@.len() - i,
        {
            let c = s[i];
            assert(s@.subrange(0, i + 1).drop_last() =~= s@.subrange(0, i as int));
            if !member(delete, c) {
                let m = match table {
                    Some(t) => t[c as usize],
                    None => c,
                };
                out.push(m);
            }
            i += 1;
        }
        assert(s@.subrange(0, s@.len() as int) =~= s@);
        Ok(PyBytes::from(out))
    }
}

} // verus!
