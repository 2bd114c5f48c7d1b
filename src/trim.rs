//! Stripping bytes from either end, and padding to a width.

use crate::ascii::{in_class, ByteClass};
use crate::bytes::PyBytes;
use crate::object::copy_bytes;
use vstd::prelude::*;

verus! {

/// Whether `c` is stripped: a member of `chars`, or ASCII white space where
/// no set is given.
pub open spec fn stripped(c: u8, chars: Option<Seq<u8>>) -> bool {
    match chars {
        None => in_class(c, ByteClass::Space),
        Some(cs) => cs.contains(c),
    }
}

/// `lo..hi` is what is left of `s` once stripped bytes are taken from the
/// left (when `left`) and from the right (when `right`).
pub open spec fn kept_range(s: Seq<u8>, chars: Option<Seq<u8>>, left: bool, right: bool, lo: int, hi: int) -> bool {
    &&& 0 <= lo <= hi <= s.len()
    &&& (!left ==> lo == 0)
    &&& (!right ==> hi == s.len())
    &&& forall|j: int| 0 <= j < lo ==> stripped(#[trigger] s[j], chars)
    &&& forall|j: int| hi <= j < s.len() ==> stripped(#[trigger] s[j], chars)
    &&& (left && lo < hi ==> !stripped(s[lo], chars))
    &&& (right && lo < hi ==> !stripped(s[hi - 1], chars))
    &&& (left && right && lo == hi ==> lo == 0)
}

/// What stripping leaves of `s`.
pub open spec fn strip_result(s: Seq<u8>, chars: Option<Seq<u8>>, left: bool, right: bool, r: Seq<u8>) -> bool {
    exists|lo: int, hi: int| kept_range(s, chars, left, right, lo, hi) && r == s.subrange(lo, hi)
}

fn is_stripped(c: u8, chars: Option<&[u8]>) -> (r: bool)
    ensures
        r == stripped(c, match chars { Some(cs) => Some(cs@), None => None }),
{
    match chars {
        None => c == 0x20 || (0x09 <= c && c <= 0x0d),
        Some(cs) => {
            let mut i: usize = 0;
            while i < cs.len()
                invariant
                    i <= cs@.len(),
                    chars == Some(cs),
                    forall|j: int| 0 <= j < i ==> cs@[j] != c,
                decreases cs@.len() - i,
            {
                if cs[i] == c {
                    assert(cs@[i as int] == c);
                    assert(cs@.contains(c));
                    return true;
                }
                i += 1;
            }
            false
        },
    }
}

fn strip_exec(s: &[u8], chars: Option<&[u8]>, left: bool, right: bool) -> (r: Vec<u8>)
    ensures
        strip_result(s@, match chars { Some(cs) => Some(cs@), None => None }, left, right, r@),
{
    let ghost cs = match chars { Some(cs) => Some(cs@), None => None };
    let mut lo: usize = 0;
    if left {
        while lo < s.len() && is_stripped(s[lo], chars)
            invariant
                lo <= s@.len(),
                cs == (match chars { Some(cs) => Some(cs@), None => None::<Seq<u8>> }),
                forall|j: int| 0 <= j < lo ==> stripped(#[trigger] s@[j], cs),
            decreases s@.len() - lo,
        {
            lo += 1;
        }
    }
    let mut hi: usize = s.len();
    if right {
        while hi > lo && is_stripped(s[hi - 1], chars)
            invariant
                lo <= hi <= s@.len(),
                cs == (match chars { Some(cs) => Some(cs@), None => None::<Seq<u8>> }),
                forall|j: int| hi <= j < s@.len() ==> stripped(#[trigger] s@[j], cs),
            decreases hi,
        {
            hi -= 1;
        }
    }
    if left && right && lo == hi {
        lo = 0;
        hi = 0;
    }
    let r = copy_bytes(&s[lo..hi]);
    assert(kept_range(s@, cs, left, right, lo as int, hi as int));
    r
}

impl PyBytes {
    /// A new value without the leading and trailing bytes that are in
    /// `chars` (ASCII white space where `chars` is `None`).
    pub fn strip(&self, chars: Option<&[u8]>) -> (r: PyBytes)
        ensures
            strip_result(self@, match chars { Some(cs) => Some(cs@), None => None }, true, true, r@),
    {
        PyBytes::from(strip_exec(self.as_bytes(), chars, true, true))
    }

    /// A new value without the leading bytes that are in `chars`.
    pub fn lstrip(&self, chars: Option<&[u8]>) -> (r: PyBytes)
        ensures
            strip_result(self@, match chars { Some(cs) => Some(cs@), None => None }, true, false, r@),
    {
        PyBytes::from(strip_exec(self.as_bytes(), chars, true, false))
    }

    /// A new value without the trailing bytes that are in `chars`.
    pub fn rstrip(&self, chars: Option<&[u8]>) -> (r: PyBytes)
        ensures
            strip_result(self@, match chars { Some(cs) => Some(cs@), None => None }, false, true, r@),
    {
        PyBytes::from(strip_exec(self.as_bytes(), chars, false, true))
    }
}

} // verus!
