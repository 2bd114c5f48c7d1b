//! Padding a byte value to a width: on the right, on the left, on both
//! sides, and with zeros after a sign.

use crate::bytes::PyBytes;
use vstd::prelude::*;

verus! {

/// `n` copies of byte `f`.
pub open spec fn fill_seq(n: int, f: u8) -> Seq<u8> {
    Seq::new(n as nat, |_i: int| f)
}

/// How many fill bytes pad a value of length `len` to `width` (none where
/// it is already that long).
pub open spec fn margin(len: int, width: int) -> int {
    if width > len { width - len } else { 0 }
}

/// The fill bytes that go left of a centred value: half the margin, and
/// the odd one too where the margin and the width are both odd.
pub open spec fn center_left(len: int, width: int) -> int {
    let m = margin(len, width);
    m / 2 + (if m % 2 == 1 && width % 2 == 1 { 1int } else { 0 })
}

/// Padded on the left with zeros to `width`; a leading sign stays in front.
pub open spec fn zfilled(s: Seq<u8>, width: int) -> Seq<u8> {
    let f = margin(s.len() as int, width);
    let z = fill_seq(f, 0x30) + s;
    if f > 0 && s.len() > 0 && (s[0] == 0x2b || s[0] == 0x2d) {
        z.update(0, s[0]).update(f, 0x30)
    } else {
        z
    }
}

fn pad_exec(s: &[u8], left: usize, right: usize, f: u8) -> (r: Vec<u8>)
    requires
        left + s@.len() + right <= usize::MAX,
    ensures
        r@ == fill_seq(left as int, f) + s@ + fill_seq(right as int, f),
{
    let mut v: Vec<u8> = Vec::new();
    let mut i: usize = 0;
    while i < left
        invariant
            i <= left,
            v@ == fill_seq(i as int, f),
        decreases left - i,
    {
        v.push(f);
        i += 1;
        assert(v@ =~= fill_seq(i as int, f));
    }
    let mut j: usize = 0;
    while j < s.len()
        invariant
            j <= s@.len(),
            v@ == fill_seq(left as int, f) + s@.subrange(0, j as int),
        decreases s@.len() - j,
    {
        v.push(s[j]);
        j += 1;
        assert(v@ =~= fill_seq(left as int, f) + s@.subrange(0, j as int));
    }
    assert(s@.subrange(0, s@.len() as int) =~= s@);
    let mut k: usize = 0;
    while k < right
        invariant
            k <= right,
            v@ == fill_seq(left as int, f) + s@ + fill_seq(k as int, f),
        decreases right - k,
    {
        v.push(f);
        k += 1;
        assert(v@ =~= fill_seq(left as int, f) + s@ + fill_seq(k as int, f));
    }
    v
}

impl PyBytes {
    fn margin_exec(&self, width: isize) -> (r: usize)
        requires
            self@.len() <= isize::MAX,
        ensures
            r == margin(self@.len() as int, width as int),
            r + self@.len() <= isize::MAX,
    {
        let len = self.len();
        if width > 0 && (width as usize) > len { width as usize - len } else { 0 }
    }

    /// Left-aligned in a field of `width`, filled on the right with `fill`.
    pub fn ljust(&self, width: isize, fill: u8) -> (r: PyBytes)
        requires
            self@.len() <= isize::MAX,
        ensures
            r@ == self@ + fill_seq(margin(self@.len() as int, width as int), fill),
    {
        let m = self.margin_exec(width);
        let v = pad_exec(self.as_bytes(), 0, m, fill);
        assert(v@ =~= self@ + fill_seq(m as int, fill));
        PyBytes::from(v)
    }

    /// Right-aligned in a field of `width`, filled on the left with `fill`.
    pub fn rjust(&self, width: isize, fill: u8) -> (r: PyBytes)
        requires
            self@.len() <= isize::MAX,
        ensures
            r@ == fill_seq(margin(self@.len() as int, width as int), fill) + self@,
    {
        let m = self.margin_exec(width);
        let v = pad_exec(self.as_bytes(), m, 0, fill);
        assert(v@ =~= fill_seq(m as int, fill) + self@);
        PyBytes::from(v)
    }

    /// Centred in a field of `width`, filled on both sides with `fill`.
    pub fn center(&self, width: isize, fill: u8) -> (r: PyBytes)
        requires
            self@.len() <= isize::MAX,
        ensures
            ({
                let m = margin(self@.len() as int, width as int);
                let l = center_left(self@.len() as int, width as int);
                r@ == fill_seq(l, fill) + self@ + fill_seq(m - l, fill)
            }),
    {
        let m = self.margin_exec(width);
        let l: usize = if m % 2 == 1 && width % 2 == 1 { m / 2 + 1 } else { m / 2 };
        let v = pad_exec(self.as_bytes(), l, m - l, fill);
        PyBytes::from(v)
    }

    /// Padded on the left with ASCII zeros to `width`; a leading `+` or `-`
    /// stays in front of the zeros.
    pub fn zfill(&self, width: isize) -> (r: PyBytes)
        requires
            self@.len() <= isize::MAX,
        ensures
            r@ == zfilled(self@, width as int),
    {
        let m = self.margin_exec(width);
        let s = self.as_bytes();
        let mut v = pad_exec(s, m, 0, 0x30);
        assert(v@ =~= fill_seq(m as int, 0x30) + s@);
        if m > 0 && s.len() > 0 && (s[0] == 0x2b || s[0] == 0x2d) {
            let sign = s[0];
            v.set(0, sign);
            v.set(m, 0x30);
        }
        PyBytes::from(v)
    }
}

} // verus!
