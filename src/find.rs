//! Searching a byte value: find and index from either end, prefix and
//! suffix tests, partition around a separator, prefix and suffix removal.

use crate::bytes::PyBytes;
use crate::object::{copy_bytes, needle_seq, Affix, BytesError, Needle, Object};
use crate::search::{
    contains_seq, find_first, find_last, is_first_occurrence, is_last_occurrence, lemma_first_unique,
};
use vstd::prelude::*;

verus! {

/// The start of a search window: a negative bound counts from the end and
/// is clamped at zero; a bound past the end is kept as it is.
pub open spec fn window_start(len: int, start: Option<isize>) -> int {
    match start {
        None => 0,
        Some(v) => if v < 0 {
            if v + len < 0 { 0 } else { v + len }
        } else {
            v as int
        },
    }
}

/// The end of a search window, clamped to `0..=len`.
pub open spec fn window_end(len: int, end: Option<isize>) -> int {
    match end {
        None => len,
        Some(v) => if v > len {
            len
        } else if v < 0 {
            if v + len < 0 { 0 } else { v + len }
        } else {
            v as int
        },
    }
}

/// The part of `h` between the bounds, or `None` where the start lies past
/// the end (then nothing is searched, not even the empty sequence).
pub open spec fn window(h: Seq<u8>, start: Option<isize>, end: Option<isize>) -> Option<Seq<u8>> {
    let s = window_start(h.len() as int, start);
    let e = window_end(h.len() as int, end);
    if s <= e { Some(h.subrange(s, e)) } else { None }
}

/// `p` is a prefix of `w`.
pub open spec fn has_prefix(w: Seq<u8>, p: Seq<u8>) -> bool {
    p.len() <= w.len() && w.subrange(0, p.len() as int) == p
}

/// `p` is a suffix of `w`.
pub open spec fn has_suffix(w: Seq<u8>, p: Seq<u8>) -> bool {
    p.len() <= w.len() && w.subrange(w.len() - p.len(), w.len() as int) == p
}

/// `p` is a suffix of `w` when `at_end`, else a prefix.
pub open spec fn affix_matches(w: Seq<u8>, p: Seq<u8>, at_end: bool) -> bool {
    if at_end { has_suffix(w, p) } else { has_prefix(w, p) }
}

/// A tuple of candidates tried in order: the first that matches gives true;
/// one that is not byte-sequence-like, met before any match, is a type
/// error.
pub open spec fn any_affix(w: Seq<u8>, v: Seq<Object>, at_end: bool) -> Result<bool, BytesError>
    decreases v.len(),
{
    if v.len() == 0 {
        Ok(false)
    } else {
        match v[0].bytes_like() {
            None => Err(BytesError::UnsupportedOperand),
            Some(p) => if affix_matches(w, p, at_end) {
                Ok(true)
            } else {
                any_affix(w, v.drop_first(), at_end)
            },
        }
    }
}

/// The outcome of a prefix or suffix test over a window of `h`.
pub open spec fn affix_test(
    h: Seq<u8>,
    affix: Affix,
    start: Option<isize>,
    end: Option<isize>,
    at_end: bool,
) -> Result<bool, BytesError> {
    match window(h, start, end) {
        None => Ok(false),
        Some(w) => match affix {
            Affix::One(o) => match o.bytes_like() {
                Some(p) => Ok(affix_matches(w, p, at_end)),
                None => Err(BytesError::UnsupportedOperand),
            },
            Affix::Many(v) => any_affix(w, v@, at_end),
        },
    }
}

fn affix_at(w: &[u8], p: &[u8], at_end: bool) -> (r: bool)
    ensures
        r == affix_matches(w@, p@, at_end),
{
    if p.len() > w.len() {
        return false;
    }
    let wl = w.len();
    let off: usize = if at_end { wl - p.len() } else { 0 };
    let ghost part = w@.subrange(off as int, off + p@.len());
    let mut i: usize = 0;
    while i < p.len()
        invariant
            p@.len() <= w@.len(),
            wl == w@.len(),
            off + p@.len() <= w@.len(),
            off == (if at_end { w@.len() - p@.len() } else { 0 }),
            part == w@.subrange(off as int, off + p@.len()),
            i <= p@.len(),
            forall|j: int| 0 <= j < i ==> part[j] == p@[j],
        decreases p@.len() - i,
    {
        if w[off + i] != p[i] {
            assert(part[i as int] != p@[i as int]);
            return false;
        }
        i += 1;
    }
    assert(part =~= p@);
    true
}

fn window_bounds(len: usize, start: Option<isize>, end: Option<isize>) -> (r: Option<(usize, usize)>)
    requires
        len <= isize::MAX,
    ensures
        match r {
            Some((s, e)) => s == window_start(len as int, start) && e == window_end(len as int, end)
                && s <= e <= len,
            None => window_start(len as int, start) > window_end(len as int, end),
        },
{
    let n = len as i128;
    let s: i128 = match start {
        None => 0,
        Some(v) => if (v as i128) < 0 {
            if (v as i128) + n < 0 { 0 } else { (v as i128) + n }
        } else {
            v as i128
        },
    };
    let e: i128 = match end {
        None => n,
        Some(v) => if (v as i128) > n {
            n
        } else if (v as i128) < 0 {
            if (v as i128) + n < 0 { 0 } else { (v as i128) + n }
        } else {
            v as i128
        },
    };
    if s <= e { Some((s as usize, e as usize)) } else { None }
}

impl PyBytes {
    fn affix_test_exec(&self, affix: &Affix, start: Option<isize>, end: Option<isize>, at_end: bool) -> (r: Result<bool, BytesError>)
        requires
            self@.len() <= isize::MAX,
        ensures
            r == affix_test(self@, *affix, start, end, at_end),
    {
        let (s, e) = match window_bounds(self.len(), start, end) {
            Some(b) => b,
            None => return Ok(false),
        };
        let w = &self.as_bytes()[s..e];
        match affix {
            Affix::One(o) => match o {
                Object::Bytes(p) | Object::MemoryView(p) => Ok(affix_at(w, p.as_slice(), at_end)),
                _ => Err(BytesError::UnsupportedOperand),
            },
            Affix::Many(v) => {
                let ghost ws = w@;
                let mut i: usize = 0;
                assert(v@.skip(0) =~= v@);
                while i < v.len()
                    invariant
                        i <= v@.len(),
                        ws == w@,
                        window(self@, start, end) == Some(ws),
                        *affix == Affix::Many(*v),
                        any_affix(ws, v@, at_end) == any_affix(ws, v@.skip(i as int), at_end),
                    decreases v@.len() - i,
                {
                    assert(v@.skip(i as int).drop_first() =~= v@.skip(i + 1));
                    assert(v@.skip(i as int)[0] == v@[i as int]);
                    match &v[i] {
                        Object::Bytes(p) | Object::MemoryView(p) => {
                            if affix_at(w, p.as_slice(), at_end) {
                                return Ok(true);
                            }
                        },
                        _ => return Err(BytesError::UnsupportedOperand),
                    }
                    i += 1;
                }
                Ok(false)
            },
        }
    }

    /// Whether the window `start..end` begins with the affix, or with any
    /// candidate of a tuple; a start past the end gives false.
    pub fn startswith(&self, affix: &Affix, start: Option<isize>, end: Option<isize>) -> (r: Result<bool, BytesError>)
        requires
            self@.len() <= isize::MAX,
        ensures
            r == affix_test(self@, *affix, start, end, false),
    {
        self.affix_test_exec(affix, start, end, false)
    }

    /// Whether the window `start..end` ends with the affix, or with any
    /// candidate of a tuple; a start past the end gives false.
    pub fn endswith(&self, affix: &Affix, start: Option<isize>, end: Option<isize>) -> (r: Result<bool, BytesError>)
        requires
            self@.len() <= isize::MAX,
        ensures
            r == affix_test(self@, *affix, start, end, true),
    {
        self.affix_test_exec(affix, start, end, true)
    }

    /// Where the needle occurs in the window, as an offset into the whole
    /// value: the first occurrence, or the last one when `from_end`.
    fn search(&self, sub: &Needle, start: Option<isize>, end: Option<isize>, from_end: bool) -> (r: Result<Option<usize>, BytesError>)
        requires
            self@.len() <= isize::MAX,
        ensures
            match needle_seq(*sub) {
                None => r == Err::<Option<usize>, BytesError>(BytesError::ByteOutOfRange),
                Some(n) => r is Ok && match r->Ok_0 {
                    Some(i) => window(self@, start, end) matches Some(w) && i <= self@.len() && ({
                        let off = i - window_start(self@.len() as int, start);
                        if from_end { is_last_occurrence(w, n, off) } else { is_first_occurrence(w, n, off) }
                    }),
                    None => !(window(self@, start, end) matches Some(w) && contains_seq(w, n)),
                },
            },
    {
        let one: Vec<u8>;
        let n: &[u8] = match sub {
            Needle::Bytes(b) => b.as_slice(),
            Needle::Int(v) => {
                if *v < 0 || *v > 255 {
                    return Err(BytesError::ByteOutOfRange);
                }
                one = vec![*v as u8];
                one.as_slice()
            },
        };
        assert(needle_seq(*sub) == Some(n@));
        let (s, e) = match window_bounds(self.len(), start, end) {
            Some(b) => b,
            None => return Ok(None),
        };
        let w = &self.as_bytes()[s..e];
        let found = if from_end { find_last(w, n) } else { find_first(w, n) };
        match found {
            Some(i) => Ok(Some(i + s)),
            None => Ok(None),
        }
    }

    /// The offset of the first occurrence of `sub` in the window, or -1.
    pub fn find(&self, sub: &Needle, start: Option<isize>, end: Option<isize>) -> (r: Result<isize, BytesError>)
        requires
            self@.len() <= isize::MAX,
        ensures
            match needle_seq(*sub) {
                None => r == Err::<isize, BytesError>(BytesError::ByteOutOfRange),
                Some(n) => r is Ok && match window(self@, start, end) {
                    Some(w) if contains_seq(w, n) => is_first_occurrence(
                        w,
                        n,
                        r->Ok_0 - window_start(self@.len() as int, start),
                    ),
                    _ => r->Ok_0 == -1,
                },
            },
    {
        match self.search(sub, start, end, false) {
            Ok(Some(i)) => Ok(i as isize),
            Ok(None) => Ok(-1),
            Err(e) => Err(e),
        }
    }

    /// The offset of the last occurrence of `sub` in the window, or -1.
    pub fn rfind(&self, sub: &Needle, start: Option<isize>, end: Option<isize>) -> (r: Result<isize, BytesError>)
        requires
            self@.len() <= isize::MAX,
        ensures
            match needle_seq(*sub) {
                None => r == Err::<isize, BytesError>(BytesError::ByteOutOfRange),
                Some(n) => r is Ok && match window(self@, start, end) {
                    Some(w) if contains_seq(w, n) => is_last_occurrence(
                        w,
                        n,
                        r->Ok_0 - window_start(self@.len() as int, start),
                    ),
                    _ => r->Ok_0 == -1,
                },
            },
    {
        match self.search(sub, start, end, true) {
            Ok(Some(i)) => Ok(i as isize),
            Ok(None) => Ok(-1),
            Err(e) => Err(e),
        }
    }

    /// As `find`, but a needle that does not occur is a value error.
    pub fn index(&self, sub: &Needle, start: Option<isize>, end: Option<isize>) -> (r: Result<usize, BytesError>)
        requires
            self@.len() <= isize::MAX,
        ensures
            match needle_seq(*sub) {
                None => r == Err::<usize, BytesError>(BytesError::ByteOutOfRange),
                Some(n) => match window(self@, start, end) {
                    Some(w) if contains_seq(w, n) => r is Ok && is_first_occurrence(
                        w,
                        n,
                        r->Ok_0 - window_start(self@.len() as int, start),
                    ),
                    _ => r == Err::<usize, BytesError>(BytesError::SubstringNotFound),
                },
            },
    {
        match self.search(sub, start, end, false) {
            Ok(Some(i)) => Ok(i),
            Ok(None) => Err(BytesError::SubstringNotFound),
            Err(e) => Err(e),
        }
    }

    /// As `rfind`, but a needle that does not occur is a value error.
    pub fn rindex(&self, sub: &Needle, start: Option<isize>, end: Option<isize>) -> (r: Result<usize, BytesError>)
        requires
            self@.len() <= isize::MAX,
        ensures
            match needle_seq(*sub) {
                None => r == Err::<usize, BytesError>(BytesError::ByteOutOfRange),
                Some(n) => match window(self@, start, end) {
                    Some(w) if contains_seq(w, n) => r is Ok && is_last_occurrence(
                        w,
                        n,
                        r->Ok_0 - window_start(self@.len() as int, start),
                    ),
                    _ => r == Err::<usize, BytesError>(BytesError::SubstringNotFound),
                },
            },
    {
        match self.search(sub, start, end, true) {
            Ok(Some(i)) => Ok(i),
            Ok(None) => Err(BytesError::SubstringNotFound),
            Err(e) => Err(e),
        }
    }
}

impl PyBytes {
    /// Splits around the first occurrence of `sep`: the part before it, the
    /// separator, the part after. Where `sep` does not occur, the whole
    /// value comes first and two empty values follow. An operand that is
    /// not byte-sequence-like is a type error, an empty one a value error.
    pub fn partition(&self, sep: &Object) -> (r: Result<(PyBytes, PyBytes, PyBytes), BytesError>)
        ensures
            match sep.bytes_like() {
                None => r == Err::<(PyBytes, PyBytes, PyBytes), BytesError>(BytesError::UnsupportedOperand),
                Some(p) => if p.len() == 0 {
                    r == Err::<(PyBytes, PyBytes, PyBytes), BytesError>(BytesError::EmptySeparator)
                } else if contains_seq(self@, p) {
                    r matches Ok((a, m, b)) && is_first_occurrence(self@, p, a@.len() as int)
                        && a@ == self@.subrange(0, a@.len() as int) && m@ == p
                        && b@ == self@.subrange((a@.len() + p.len()) as int, self@.len() as int)
                } else {
                    r matches Ok((a, m, b)) && a@ == self@ && m@.len() == 0 && b@.len() == 0
                },
            },
    {
        let p: &[u8] = match sep {
            Object::Bytes(p) | Object::MemoryView(p) => p.as_slice(),
            _ => return Err(BytesError::UnsupportedOperand),
        };
        if p.len() == 0 {
            return Err(BytesError::EmptySeparator);
        }
        let h = self.as_bytes();
        let hl = h.len();
        match find_first(h, p) {
            Some(i) => Ok((
                PyBytes::from(copy_bytes(&h[0..i])),
                PyBytes::from(copy_bytes(p)),
                PyBytes::from(copy_bytes(&h[i + p.len()..hl])),
            )),
            None => Ok((PyBytes::from(copy_bytes(h)), PyBytes::from(Vec::new()), PyBytes::from(Vec::new()))),
        }
    }

    /// Splits around the last occurrence of `sep`: the part before it, the
    /// separator, the part after. Where `sep` does not occur, two empty
    /// values come first and the whole value last. An operand that is not
    /// byte-sequence-like is a type error, an empty one a value error.
    pub fn rpartition(&self, sep: &Object) -> (r: Result<(PyBytes, PyBytes, PyBytes), BytesError>)
        ensures
            match sep.bytes_like() {
                None => r == Err::<(PyBytes, PyBytes, PyBytes), BytesError>(BytesError::UnsupportedOperand),
                Some(p) => if p.len() == 0 {
                    r == Err::<(PyBytes, PyBytes, PyBytes), BytesError>(BytesError::EmptySeparator)
                } else if contains_seq(self@, p) {
                    r matches Ok((a, m, b)) && is_last_occurrence(self@, p, a@.len() as int)
                        && a@ == self@.subrange(0, a@.len() as int) && m@ == p
                        && b@ == self@.subrange((a@.len() + p.len()) as int, self@.len() as int)
                } else {
                    r matches Ok((a, m, b)) && a@.len() == 0 && m@.len() == 0 && b@ == self@
                },
            },
    {
        let p: &[u8] = match sep {
            Object::Bytes(p) | Object::MemoryView(p) => p.as_slice(),
            _ => return Err(BytesError::UnsupportedOperand),
        };
        if p.len() == 0 {
            return Err(BytesError::EmptySeparator);
        }
        let h = self.as_bytes();
        let hl = h.len();
        match find_last(h, p) {
            Some(i) => Ok((
                PyBytes::from(copy_bytes(&h[0..i])),
                PyBytes::from(copy_bytes(p)),
                PyBytes::from(copy_bytes(&h[i + p.len()..hl])),
            )),
            None => Ok((PyBytes::from(Vec::new()), PyBytes::from(Vec::new()), PyBytes::from(copy_bytes(h)))),
        }
    }

    /// A new value without the given prefix where it is present, else a
    /// copy.
    pub fn removeprefix(&self, prefix: &[u8]) -> (r: PyBytes)
        ensures
            has_prefix(self@, prefix@) ==> r@ == self@.subrange(prefix@.len() as int, self@.len() as int),
            !has_prefix(self@, prefix@) ==> r@ == self@,
    {
        let h = self.as_bytes();
        if affix_at(h, prefix, false) {
            PyBytes::from(copy_bytes(&h[prefix.len()..h.len()]))
        } else {
            PyBytes::from(copy_bytes(h))
        }
    }

    /// A new value without the given suffix where it is present, else a
    /// copy.
    pub fn removesuffix(&self, suffix: &[u8]) -> (r: PyBytes)
        ensures
            has_suffix(self@, suffix@) ==> r@ == self@.subrange(0, self@.len() - suffix@.len()),
            !has_suffix(self@, suffix@) ==> r@ == self@,
    {
        let h = self.as_bytes();
        if affix_at(h, suffix, true) {
            PyBytes::from(copy_bytes(&h[0..h.len() - suffix.len()]))
        } else {
            PyBytes::from(copy_bytes(h))
        }
    }
}

/// How many times `n` occurs in `h` without overlap, counting from the
/// left; the empty sequence occurs once at each position, ends included.
pub open spec fn count_occ(h: Seq<u8>, n: Seq<u8>) -> nat
    decreases h.len(),
{
    if n.len() == 0 {
        h.len() + 1
    } else if contains_seq(h, n) {
        let i = choose|i: int| is_first_occurrence(h, n, i);
        if 0 <= i && i + n.len() <= h.len() {
            1 + count_occ(h.subrange(i + n.len() as int, h.len() as int), n)
        } else {
            0
        }
    } else {
        0
    }
}

impl PyBytes {
    /// How many times `sub` occurs without overlap in the window
    /// `start..end`; none where the start lies past the end.
    pub fn count(&self, sub: &Needle, start: Option<isize>, end: Option<isize>) -> (r: Result<usize, BytesError>)
        requires
            self@.len() <= isize::MAX,
        ensures
            match needle_seq(*sub) {
                None => r == Err::<usize, BytesError>(BytesError::ByteOutOfRange),
                Some(n) => match window(self@, start, end) {
                    Some(w) => r == Ok::<usize, BytesError>(count_occ(w, n) as usize),
                    None => r == Ok::<usize, BytesError>(0),
                },
            },
    {
        let one: Vec<u8>;
        let n: &[u8] = match sub {
            Needle::Bytes(b) => b.as_slice(),
            Needle::Int(v) => {
                if *v < 0 || *v > 255 {
                    return Err(BytesError::ByteOutOfRange);
                }
                one = vec![*v as u8];
                one.as_slice()
            },
        };
        assert(needle_seq(*sub) == Some(n@));
        let (s, e) = match window_bounds(self.len(), start, end) {
            Some(b) => b,
            None => return Ok(0),
        };
        let w = &self.as_bytes()[s..e];
        let wl = w.len();
        if n.len() == 0 {
            return Ok(wl + 1);
        }
        let mut pos: usize = 0;
        let mut c: usize = 0;
        assert(w@.subrange(0, wl as int) =~= w@);
        while pos <= wl
            invariant
                wl == w@.len(),
                wl <= isize::MAX,
                n@.len() > 0,
                window(self@, start, end) == Some(w@),
                needle_seq(*sub) == Some(n@),
                pos <= wl,
                c <= pos,
                c + count_occ(w@.subrange(pos as int, wl as int), n@) == count_occ(w@, n@),
            decreases wl - pos,
        {
            let rest = &w[pos..wl];
            match find_first(rest, n) {
                Some(i) => {
                    proof {
                        lemma_first_unique(rest@, n@, i as int);
                        assert(rest@.subrange(i + n@.len(), rest@.len() as int)
                            =~= w@.subrange(pos + i + n@.len(), wl as int));
                    }
                    c += 1;
                    pos = pos + i + n.len();
                },
                None => {
                    assert(count_occ(rest@, n@) == 0);
                    return Ok(c);
                },
            }
        }
        Ok(c)
    }
}

} // verus!
