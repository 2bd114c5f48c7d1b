//! Splitting a byte value at a separator or at runs of white space, from
//! the left or from the right, with an optional limit on the number of
//! splits.

use crate::ascii::{in_class, ByteClass};
use crate::bytes::PyBytes;
use crate::object::{copy_bytes, BytesError};
use crate::search::{
    contains_seq, find_first, find_last, is_first_occurrence, is_last_occurrence,
    lemma_first_unique, lemma_last_unique,
};
use vstd::prelude::*;

verus! {

/// The limit after one more split: a negative limit stays unlimited.
pub open spec fn next_limit(k: int) -> int {
    if k > 0 { k - 1 } else { k }
}

/// `h` cut at the leftmost occurrences of `sep`, at most `k` times (any
/// number of times where `k` is negative).
pub open spec fn split_seq(h: Seq<u8>, sep: Seq<u8>, k: int) -> Seq<Seq<u8>>
    decreases h.len(),
{
    if sep.len() > 0 && k != 0 && contains_seq(h, sep) {
        let i = choose|i: int| is_first_occurrence(h, sep, i);
        if 0 <= i && i + sep.len() <= h.len() {
            seq![h.subrange(0, i)] + split_seq(h.subrange(i + sep.len() as int, h.len() as int), sep, next_limit(k))
        } else {
            seq![h]
        }
    } else {
        seq![h]
    }
}

/// `h` cut at the rightmost occurrences of `sep`, at most `k` times (any
/// number of times where `k` is negative).
pub open spec fn rsplit_seq(h: Seq<u8>, sep: Seq<u8>, k: int) -> Seq<Seq<u8>>
    decreases h.len(),
{
    if sep.len() > 0 && k != 0 && contains_seq(h, sep) {
        let i = choose|i: int| is_last_occurrence(h, sep, i);
        if 0 <= i && i + sep.len() <= h.len() {
            rsplit_seq(h.subrange(0, i), sep, next_limit(k)) + seq![h.subrange(i + sep.len() as int, h.len() as int)]
        } else {
            seq![h]
        }
    } else {
        seq![h]
    }
}

/// The contents of a list of byte values.
pub open spec fn views(v: Seq<PyBytes>) -> Seq<Seq<u8>> {
    v.map_values(|b: PyBytes| b@)
}

impl PyBytes {
    fn split_sep(&self, sep: &[u8], maxsplit: isize) -> (r: Result<Vec<PyBytes>, BytesError>)
        ensures
            sep@.len() == 0 ==> r == Err::<Vec<PyBytes>, BytesError>(BytesError::EmptySeparator),
            sep@.len() > 0 ==> (r matches Ok(v) && views(v@) == split_seq(self@, sep@, maxsplit as int)),
    {
        if sep.len() == 0 {
            return Err(BytesError::EmptySeparator);
        }
        let h = self.as_bytes();
        let hl = h.len();
        let mut out: Vec<PyBytes> = Vec::new();
        let mut pos: usize = 0;
        let mut k: isize = maxsplit;
        assert(h@.subrange(0, hl as int) =~= h@);
        loop
            invariant
                hl == h@.len(),
                h@ == self@,
                sep@.len() > 0,
                pos <= hl,
                k <= maxsplit || maxsplit < 0,
                views(out@) + split_seq(h@.subrange(pos as int, hl as int), sep@, k as int)
                    == split_seq(h@, sep@, maxsplit as int),
            decreases hl - pos,
        {
            let rest = &h[pos..hl];
            let found = if k == 0 { None } else { find_first(rest, sep) };
            match found {
                Some(i) => {
                    let piece = PyBytes::from(copy_bytes(&rest[0..i]));
                    proof {
                        lemma_first_unique(rest@, sep@, i as int);
                        assert(rest@.subrange(i + sep@.len(), rest@.len() as int)
                            =~= h@.subrange(pos + i + sep@.len(), hl as int));
                        assert(views(out@.push(piece)) =~= views(out@).push(piece@));
                        assert(split_seq(rest@, sep@, k as int) == seq![rest@.subrange(0, i as int)]
                            + split_seq(h@.subrange(pos + i + sep@.len(), hl as int), sep@, next_limit(k as int)));
                        assert(views(out@).push(piece@) + split_seq(h@.subrange(pos + i + sep@.len(), hl as int), sep@, next_limit(k as int))
                            =~= views(out@) + (seq![rest@.subrange(0, i as int)]
                            + split_seq(h@.subrange(pos + i + sep@.len(), hl as int), sep@, next_limit(k as int))));
                    }
                    out.push(piece);
                    pos = pos + i + sep.len();
                    if k > 0 {
                        k -= 1;
                    }
                },
                None => {
                    let piece = PyBytes::from(copy_bytes(rest));
                    proof {
                        assert(split_seq(rest@, sep@, k as int) == seq![rest@]);
                        assert(views(out@.push(piece)) =~= views(out@) + seq![rest@]);
                    }
                    out.push(piece);
                    return Ok(out);
                },
            }
        }
    }

    fn rsplit_sep(&self, sep: &[u8], maxsplit: isize) -> (r: Result<Vec<PyBytes>, BytesError>)
        ensures
            sep@.len() == 0 ==> r == Err::<Vec<PyBytes>, BytesError>(BytesError::EmptySeparator),
            sep@.len() > 0 ==> (r matches Ok(v) && views(v@) == rsplit_seq(self@, sep@, maxsplit as int)),
    {
        if sep.len() == 0 {
            return Err(BytesError::EmptySeparator);
        }
        let h = self.as_bytes();
        let mut out: Vec<PyBytes> = Vec::new();
        let mut end: usize = h.len();
        let mut k: isize = maxsplit;
        assert(h@.subrange(0, h@.len() as int) =~= h@);
        loop
            invariant
                end <= h@.len(),
                h@ == self@,
                sep@.len() > 0,
                k <= maxsplit || maxsplit < 0,
                rsplit_seq(h@.subrange(0, end as int), sep@, k as int) + views(out@)
                    == rsplit_seq(h@, sep@, maxsplit as int),
            decreases end,
        {
            let rest = &h[0..end];
            let found = if k == 0 { None } else { find_last(rest, sep) };
            match found {
                Some(i) => {
                    let piece = PyBytes::from(copy_bytes(&rest[i + sep.len()..end]));
                    proof {
                        lemma_last_unique(rest@, sep@, i as int);
                        assert(rest@.subrange(0, i as int) =~= h@.subrange(0, i as int));
                        assert(views(out@.insert(0, piece)) =~= seq![piece@] + views(out@));
                        let tail = rsplit_seq(h@.subrange(0, i as int), sep@, next_limit(k as int));
                        assert(rsplit_seq(rest@, sep@, k as int) == tail + seq![piece@]);
                        assert(tail + (seq![piece@] + views(out@))
                            =~= (tail + seq![piece@]) + views(out@));
                    }
                    out.insert(0, piece);
                    end = i;
                    if k > 0 {
                        k -= 1;
                    }
                },
                None => {
                    let piece = PyBytes::from(copy_bytes(rest));
                    proof {
                        assert(rsplit_seq(rest@, sep@, k as int) == seq![rest@]);
                        assert(views(out@.insert(0, piece)) =~= seq![rest@] + views(out@));
                    }
                    out.insert(0, piece);
                    return Ok(out);
                },
            }
        }
    }
}

/// ASCII white space.
pub open spec fn is_ws(c: u8) -> bool {
    in_class(c, ByteClass::Space)
}

/// The first index at or after `i` that is not white space, or the length.
pub open spec fn skip_ws(s: Seq<u8>, i: int) -> int
    decreases s.len() - i,
{
    if i < 0 || i >= s.len() { s.len() as int } else if is_ws(s[i]) { skip_ws(s, i + 1) } else { i }
}

/// The first index at or after `i` that is white space, or the length.
pub open spec fn skip_word(s: Seq<u8>, i: int) -> int
    decreases s.len() - i,
{
    if i < 0 || i >= s.len() { s.len() as int } else if !is_ws(s[i]) { skip_word(s, i + 1) } else { i }
}

/// The start of the run of white space that ends at `e`.
pub open spec fn back_ws(s: Seq<u8>, e: int) -> int
    decreases e,
{
    if e <= 0 || e > s.len() { 0 } else if is_ws(s[e - 1]) { back_ws(s, e - 1) } else { e }
}

/// The start of the run of other bytes that ends at `e`.
pub open spec fn back_word(s: Seq<u8>, e: int) -> int
    decreases e,
{
    if e <= 0 || e > s.len() { 0 } else if !is_ws(s[e - 1]) { back_word(s, e - 1) } else { e }
}

/// The words of `s` from index `i` on, separated by runs of white space;
/// after `k` words (never, where `k` is negative) the rest, without its
/// leading white space, is one last piece.
pub open spec fn ws_split(s: Seq<u8>, i: int, k: int) -> Seq<Seq<u8>>
    decreases s.len() - i,
{
    let a = skip_ws(s, i);
    if i < 0 || a < i || a >= s.len() {
        Seq::empty()
    } else if k == 0 {
        seq![s.subrange(a, s.len() as int)]
    } else {
        let b = skip_word(s, a);
        if b <= a || b > s.len() {
            Seq::empty()
        } else {
            seq![s.subrange(a, b)] + ws_split(s, b, next_limit(k))
        }
    }
}

/// The words of `s` before index `e`, taken from the right; after `k`
/// words (never, where `k` is negative) the rest, without its trailing
/// white space, is one first piece.
pub open spec fn ws_rsplit(s: Seq<u8>, e: int, k: int) -> Seq<Seq<u8>>
    decreases e,
{
    let a = back_ws(s, e);
    if e > s.len() || a > e || a <= 0 {
        Seq::empty()
    } else if k == 0 {
        seq![s.subrange(0, a)]
    } else {
        let b = back_word(s, a);
        if b >= a || b < 0 {
            Seq::empty()
        } else {
            ws_rsplit(s, b, next_limit(k)) + seq![s.subrange(b, a)]
        }
    }
}

proof fn lemma_skip_run(s: Seq<u8>, i: int, j: int, ws: bool)
    requires
        0 <= i <= j <= s.len(),
        forall|t: int| i <= t < j ==> is_ws(#[trigger] s[t]) == ws,
    ensures
        ws ==> skip_ws(s, i) == skip_ws(s, j),
        !ws ==> skip_word(s, i) == skip_word(s, j),
    decreases j - i,
{
    if i < j {
        lemma_skip_run(s, i + 1, j, ws);
    }
}

proof fn lemma_back_run(s: Seq<u8>, i: int, j: int, ws: bool)
    requires
        0 <= i <= j <= s.len(),
        forall|t: int| i <= t < j ==> is_ws(#[trigger] s[t]) == ws,
    ensures
        ws ==> back_ws(s, j) == back_ws(s, i),
        !ws ==> back_word(s, j) == back_word(s, i),
    decreases j - i,
{
    if i < j {
        lemma_back_run(s, i, j - 1, ws);
    }
}

fn is_ws_exec(c: u8) -> (r: bool)
    ensures
        r == is_ws(c),
{
    c == 0x20 || (0x09 <= c && c <= 0x0d)
}

impl PyBytes {
    fn split_ws(&self, maxsplit: isize) -> (r: Vec<PyBytes>)
        ensures
            views(r@) == ws_split(self@, 0, maxsplit as int),
    {
        let s = self.as_bytes();
        let len = s.len();
        let mut out: Vec<PyBytes> = Vec::new();
        let mut i: usize = 0;
        let mut k: isize = maxsplit;
        loop
            invariant
                len == s@.len(),
                s@ == self@,
                i <= len,
                views(out@) + ws_split(s@, i as int, k as int) == ws_split(s@, 0, maxsplit as int),
            decreases len - i,
        {
            let mut a: usize = i;
            while a < len && is_ws_exec(s[a])
                invariant
                    i <= a <= len,
                    len == s@.len(),
                    forall|t: int| i <= t < a ==> is_ws(#[trigger] s@[t]) == true,
                decreases len - a,
            {
                a += 1;
            }
            proof {
                lemma_skip_run(s@, i as int, a as int, true);
            }
            if a == len {
                assert(ws_split(s@, i as int, k as int) =~= Seq::<Seq<u8>>::empty());
                assert(views(out@) + Seq::<Seq<u8>>::empty() =~= views(out@));
                return out;
            }
            if k == 0 {
                let piece = PyBytes::from(copy_bytes(&s[a..len]));
                proof {
                    assert(views(out@.push(piece)) =~= views(out@) + seq![piece@]);
                }
                out.push(piece);
                return out;
            }
            let mut b: usize = a + 1;
            while b < len && !is_ws_exec(s[b])
                invariant
                    a < b <= len,
                    len == s@.len(),
                    forall|t: int| a <= t < b ==> is_ws(#[trigger] s@[t]) == false,
                decreases len - b,
            {
                b += 1;
            }
            proof {
                lemma_skip_run(s@, a as int, b as int, false);
            }
            let piece = PyBytes::from(copy_bytes(&s[a..b]));
            proof {
                assert(views(out@.push(piece)) =~= views(out@) + seq![piece@]);
                let rest = ws_split(s@, b as int, next_limit(k as int));
                assert(ws_split(s@, i as int, k as int) == seq![piece@] + rest);
                assert(views(out@) + (seq![piece@] + rest) =~= (views(out@) + seq![piece@]) + rest);
            }
            out.push(piece);
            i = b;
            if k > 0 {
                k -= 1;
            }
        }
    }

    fn rsplit_ws(&self, maxsplit: isize) -> (r: Vec<PyBytes>)
        ensures
            views(r@) == ws_rsplit(self@, self@.len() as int, maxsplit as int),
    {
        let s = self.as_bytes();
        let len = s.len();
        let mut out: Vec<PyBytes> = Vec::new();
        let mut e: usize = len;
        let mut k: isize = maxsplit;
        loop
            invariant
                len == s@.len(),
                s@ == self@,
                e <= len,
                ws_rsplit(s@, e as int, k as int) + views(out@) == ws_rsplit(s@, len as int, maxsplit as int),
            decreases e,
        {
            let mut a: usize = e;
            while a > 0 && is_ws_exec(s[a - 1])
                invariant
                    a <= e <= len,
                    len == s@.len(),
                    forall|t: int| a <= t < e ==> is_ws(#[trigger] s@[t]) == true,
                decreases a,
            {
                a -= 1;
            }
            proof {
                lemma_back_run(s@, a as int, e as int, true);
            }
            if a == 0 {
                assert(ws_rsplit(s@, e as int, k as int) =~= Seq::<Seq<u8>>::empty());
                assert(Seq::<Seq<u8>>::empty() + views(out@) =~= views(out@));
                return out;
            }
            if k == 0 {
                let piece = PyBytes::from(copy_bytes(&s[0..a]));
                proof {
                    assert(views(out@.insert(0, piece)) =~= seq![piece@] + views(out@));
                }
                out.insert(0, piece);
                return out;
            }
            let mut b: usize = a - 1;
            while b > 0 && !is_ws_exec(s[b - 1])
                invariant
                    b < a <= len,
                    len == s@.len(),
                    forall|t: int| b <= t < a ==> is_ws(#[trigger] s@[t]) == false,
                decreases b,
            {
                b -= 1;
            }
            proof {
                lemma_back_run(s@, b as int, a as int, false);
            }
            let piece = PyBytes::from(copy_bytes(&s[b..a]));
            proof {
                assert(views(out@.insert(0, piece)) =~= seq![piece@] + views(out@));
                let rest = ws_rsplit(s@, b as int, next_limit(k as int));
                assert(ws_rsplit(s@, e as int, k as int) == rest + seq![piece@]);
                assert(rest + (seq![piece@] + views(out@)) =~= (rest + seq![piece@]) + views(out@));
            }
            out.insert(0, piece);
            e = b;
            if k > 0 {
                k -= 1;
            }
        }
    }

    /// The pieces of the value, splitting at most `maxsplit` times (without
    /// limit where it is negative) from the left: at the leftmost
    /// occurrences of `sep`, or, without a separator, at runs of white
    /// space, with no empty pieces. An empty separator is a value error.
    pub fn split(&self, sep: Option<&[u8]>, maxsplit: isize) -> (r: Result<Vec<PyBytes>, BytesError>)
        ensures
            match sep {
                None => r matches Ok(v) && views(v@) == ws_split(self@, 0, maxsplit as int),
                Some(p) => {
                    &&& p@.len() == 0 ==> r == Err::<Vec<PyBytes>, BytesError>(BytesError::EmptySeparator)
                    &&& p@.len() > 0 ==> (r matches Ok(v) && views(v@) == split_seq(self@, p@, maxsplit as int))
                },
            },
    {
        match sep {
            None => Ok(self.split_ws(maxsplit)),
            Some(p) => self.split_sep(p, maxsplit),
        }
    }

    /// As `split`, but splitting from the right.
    pub fn rsplit(&self, sep: Option<&[u8]>, maxsplit: isize) -> (r: Result<Vec<PyBytes>, BytesError>)
        ensures
            match sep {
                None => r matches Ok(v) && views(v@) == ws_rsplit(self@, self@.len() as int, maxsplit as int),
                Some(p) => {
                    &&& p@.len() == 0 ==> r == Err::<Vec<PyBytes>, BytesError>(BytesError::EmptySeparator)
                    &&& p@.len() > 0 ==> (r matches Ok(v) && views(v@) == rsplit_seq(self@, p@, maxsplit as int))
                },
            },
    {
        match sep {
            None => Ok(self.rsplit_ws(maxsplit)),
            Some(p) => self.rsplit_sep(p, maxsplit),
        }
    }
}

} // verus!
