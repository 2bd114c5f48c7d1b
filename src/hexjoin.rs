//! Building byte values: from hexadecimal text, and by joining pieces
//! with a separator.

use crate::bytes::PyBytes;
use crate::object::{BytesError, BytesType, Object};
use vstd::prelude::*;

verus! {

/// The value of a hexadecimal digit, in either case.
pub open spec fn hex_value(c: u8) -> Option<u8> {
    if 0x30 <= c <= 0x39 {
        Some((c - 0x30) as u8)
    } else if 0x61 <= c <= 0x66 {
        Some((c - 0x61 + 10) as u8)
    } else if 0x41 <= c <= 0x46 {
        Some((c - 0x41 + 10) as u8)
    } else {
        None
    }
}

/// ASCII white space, which may stand between the pairs of digits.
pub open spec fn hex_gap(c: u8) -> bool {
    c == 0x20 || (0x09 <= c <= 0x0d)
}

/// Reads pairs of hexadecimal digits from `s` at `i` on, each pair one
/// byte, skipping white space between pairs; an error gives the position
/// of the first byte that does not fit.
pub open spec fn parse_hex(s: Seq<u8>, i: int) -> Result<Seq<u8>, int>
    decreases s.len() - i,
{
    if i < 0 || i >= s.len() {
        Ok(Seq::empty())
    } else if hex_gap(s[i]) {
        parse_hex(s, i + 1)
    } else {
        match hex_value(s[i]) {
            None => Err(i),
            Some(top) => if i + 1 >= s.len() {
                Err(i + 1)
            } else {
                match hex_value(s[i + 1]) {
                    None => Err(i + 1),
                    Some(bot) => match parse_hex(s, i + 2) {
                        Ok(rest) => Ok(seq![(top * 16 + bot) as u8] + rest),
                        Err(p) => Err(p),
                    },
                }
            },
        }
    }
}

fn hex_value_exec(c: u8) -> (r: Option<u8>)
    ensures
        r == hex_value(c),
        r matches Some(v) ==> v < 16,
{
    if 0x30 <= c && c <= 0x39 {
        Some(c - 0x30)
    } else if 0x61 <= c && c <= 0x66 {
        Some(c - 0x61 + 10)
    } else if 0x41 <= c && c <= 0x46 {
        Some(c - 0x41 + 10)
    } else {
        None
    }
}

/// Pieces joined with `sep` between each two.
pub open spec fn joined(sep: Seq<u8>, pieces: Seq<Seq<u8>>) -> Seq<u8>
    decreases pieces.len(),
{
    if pieces.len() == 0 {
        Seq::empty()
    } else if pieces.len() == 1 {
        pieces[0]
    } else {
        joined(sep, pieces.drop_last()) + sep + pieces.last()
    }
}

/// The bytes of each operand, where all are byte-sequence-like.
pub open spec fn all_bytes_like(items: Seq<Object>) -> bool {
    forall|i: int| 0 <= i < items.len() ==> (#[trigger] items[i]).bytes_like() is Some
}

pub open spec fn pieces_of(items: Seq<Object>) -> Seq<Seq<u8>> {
    items.map_values(|o: Object| o.bytes_like()->0)
}

impl PyBytes {
    /// A value of type `cls` from hexadecimal text: two digits per byte,
    /// white space allowed between pairs. Anything else is a value error
    /// at the position of the offending byte.
    pub fn fromhex(cls: BytesType, text: &[u8]) -> (r: Result<PyBytes, (BytesError, usize)>)
        ensures
            match parse_hex(text@, 0) {
                Ok(v) => r matches Ok(b) && b@ == v && b.class() == cls,
                Err(p) => r == Err::<PyBytes, (BytesError, usize)>((BytesError::InvalidHex, p as usize)),
            },
    {
        let mut out: Vec<u8> = Vec::new();
        let mut i: usize = 0;
        let n = text.len();
        while i < n
            invariant
                n == text@.len(),
                i <= n,
                forall|v: Seq<u8>| #[trigger] parse_hex(text@, i as int) == Ok::<Seq<u8>, int>(v)
                    ==> parse_hex(text@, 0) == Ok::<Seq<u8>, int>(out@ + v),
                forall|p: int| #[trigger] parse_hex(text@, i as int) == Err::<Seq<u8>, int>(p)
                    ==> parse_hex(text@, 0) == Err::<Seq<u8>, int>(p),
            decreases n - i,
        {
            let c = text[i];
            if c == 0x20 || (0x09 <= c && c <= 0x0d) {
                i += 1;
                continue;
            }
            let top = match hex_value_exec(c) {
                Some(t) => t,
                None => return Err((BytesError::InvalidHex, i)),
            };
            if i + 1 >= n {
                return Err((BytesError::InvalidHex, i + 1));
            }
            let bot = match hex_value_exec(text[i + 1]) {
                Some(t) => t,
                None => return Err((BytesError::InvalidHex, i + 1)),
            };
            let ghost before = out@;
            let x: u8 = top * 16 + bot;
            out.push(x);
            proof {
                assert forall|v: Seq<u8>| #[trigger] parse_hex(text@, i + 2) == Ok::<Seq<u8>, int>(v)
                    implies parse_hex(text@, 0) == Ok::<Seq<u8>, int>(out@ + v) by {
                    assert(parse_hex(text@, i as int) == Ok::<Seq<u8>, int>(seq![x] + v));
                    assert(before + (seq![x] + v) =~= out@ + v);
                }
            }
            i += 2;
        }
        assert(parse_hex(text@, i as int) == Ok::<Seq<u8>, int>(Seq::empty()));
        assert(out@ + Seq::<u8>::empty() =~= out@);
        Ok(PyBytes::py_new(cls, out))
    }

    /// The operands joined with this value between each two; an operand
    /// that is not byte-sequence-like is a type error.
    pub fn join(&self, items: &Vec<Object>) -> (r: Result<PyBytes, BytesError>)
        requires
            all_bytes_like(items@) ==> joined(self@, pieces_of(items@)).len() <= usize::MAX,
        ensures
            all_bytes_like(items@) ==> (r matches Ok(b) && b@ == joined(self@, pieces_of(items@))),
            !all_bytes_like(items@) ==> r == Err::<PyBytes, BytesError>(BytesError::UnsupportedOperand),
    {
        let mut k: usize = 0;
        while k < items.len()
            invariant
                k <= items@.len(),
                forall|j: int| 0 <= j < k ==> (#[trigger] items@[j]).bytes_like() is Some,
            decreases items@.len() - k,
        {
            match &items[k] {
                Object::Bytes(_) | Object::MemoryView(_) => {},
                _ => {
                    assert(items@[k as int].bytes_like() is None);
                    return Err(BytesError::UnsupportedOperand);
                },
            }
            k += 1;
        }
        let ghost pieces = pieces_of(items@);
        let mut out: Vec<u8> = Vec::new();
        let mut i: usize = 0;
        while i < items.len()
            invariant
                all_bytes_like(items@),
                pieces == pieces_of(items@),
                i <= items@.len(),
                joined(self@, pieces).len() <= usize::MAX,
                out@ == joined(self@, pieces.subrange(0, i as int)),
            decreases items@.len() - i,
        {
            proof {
                lemma_joined_prefix(self@, pieces, i as int + 1);
                assert(pieces.subrange(0, i + 1).drop_last() =~= pieces.subrange(0, i as int));
            }
            let p: &[u8] = match &items[i] {
                Object::Bytes(b) | Object::MemoryView(b) => b.as_slice(),
                _ => {
                    assert(items@[i as int].bytes_like() is Some);
                    return Err(BytesError::UnsupportedOperand);
                },
            };
            if i > 0 {
                append(&mut out, self.as_bytes());
            }
            append(&mut out, p);
            proof {
                if i == 0 {
                    assert(out@ =~= joined(self@, pieces.subrange(0, 1)));
                }
            }
            i += 1;
        }
        assert(pieces.subrange(0, items@.len() as int) =~= pieces);
        Ok(PyBytes::from(out))
    }
}

/// A prefix of the pieces never joins longer than the whole.
proof fn lemma_joined_prefix(sep: Seq<u8>, pieces: Seq<Seq<u8>>, k: int)
    requires
        0 <= k <= pieces.len(),
    ensures
        joined(sep, pieces.subrange(0, k)).len() <= joined(sep, pieces).len(),
    decreases pieces.len() - k,
{
    if k < pieces.len() {
        lemma_joined_prefix(sep, pieces, k + 1);
        let longer = pieces.subrange(0, k + 1);
        assert(longer.drop_last() =~= pieces.subrange(0, k));
        if k == 0 {
            assert(pieces.subrange(0, 0).len() == 0);
        }
    } else {
        assert(pieces.subrange(0, k) =~= pieces);
    }
}

fn append(out: &mut Vec<u8>, s: &[u8])
    requires
        old(out)@.len() + s@.len() <= usize::MAX,
    ensures
        final(out)@ == old(out)@ + s@,
{
    let ghost start = out@;
    let mut j: usize = 0;
    while j < s.len()
        invariant
            j <= s@.len(),
            out@ == start + s@.subrange(0, j as int),
        decreases s@.len() - j,
    {
        out.push(s[j]);
        j += 1;
        assert(out@ =~= start + s@.subrange(0, j as int));
    }
    assert(s@.subrange(0, s@.len() as int) =~= s@);
}

} // verus!
