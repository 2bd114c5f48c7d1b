//! Printable forms of a byte value: the canonical representation
//! `b'...'`, with every byte that is not printable ASCII escaped, and
//! hexadecimal text with optional separators.

use crate::bytes::PyBytes;
use crate::object::BytesError;
use vstd::prelude::*;

verus! {

/// The quote character: a double quote where the bytes hold a single quote
/// and no double quote, else a single quote.
pub open spec fn quote_of(s: Seq<u8>) -> u8 {
    if s.contains(0x27u8) && !s.contains(0x22u8) { 0x22 } else { 0x27 }
}

/// A lower-case hexadecimal digit.
pub open spec fn hex_digit(d: u8) -> u8 {
    if d < 10 { (0x30 + d) as u8 } else { (0x61 + d - 10) as u8 }
}

/// How one byte is written between quotes `q`.
pub open spec fn escape_byte(c: u8, q: u8) -> Seq<u8> {
    if c == q || c == 0x5c {
        seq![0x5cu8, c]
    } else if c == 0x09 {
        seq![0x5cu8, 0x74u8]
    } else if c == 0x0a {
        seq![0x5cu8, 0x6eu8]
    } else if c == 0x0d {
        seq![0x5cu8, 0x72u8]
    } else if c < 0x20 || c >= 0x7f {
        seq![0x5cu8, 0x78u8, hex_digit(c / 16), hex_digit(c % 16)]
    } else {
        seq![c]
    }
}

/// The bytes of `s`, each written as `escape_byte` writes it.
pub open spec fn escaped(s: Seq<u8>, q: u8) -> Seq<u8>
    decreases s.len(),
{
    if s.len() == 0 {
        Seq::empty()
    } else {
        escaped(s.drop_last(), q) + escape_byte(s.last(), q)
    }
}

/// The whole representation, as ASCII bytes.
pub open spec fn repr_bytes(s: Seq<u8>) -> Seq<u8> {
    seq![0x62u8, quote_of(s)] + escaped(s, quote_of(s)) + seq![quote_of(s)]
}

/// The characters that stand for the ASCII bytes `b`, one for one.
pub open spec fn ascii_chars(b: Seq<u8>) -> Seq<char> {
    b.map_values(|c: u8| c as char)
}

/// Relies on std's `String::from_utf8`: bytes that are all ASCII are valid
/// UTF-8, and each becomes the character with that code.
#[verifier::external_body]
fn ascii_string(v: Vec<u8>) -> (r: String)
    requires
        forall|i: int| 0 <= i < v@.len() ==> v@[i] < 0x80,
    ensures
        r@ == ascii_chars(v@),
{
    match String::from_utf8(v) {
        Ok(s) => s,
        Err(_) => String::new(),
    }
}

fn hex_digit_exec(d: u8) -> (r: u8)
    requires
        d < 16,
    ensures
        r == hex_digit(d),
{
    if d < 10 { 0x30 + d } else { 0x61 + d - 10 }
}

fn contains_byte(s: &[u8], x: u8) -> (r: bool)
    ensures
        r == s@.contains(x),
{
    let mut i: usize = 0;
    while i < s.len()
        invariant
            i <= s@.len(),
            forall|j: int| 0 <= j < i ==> s@[j] != x,
        decreases s@.len() - i,
    {
        if s[i] == x {
            assert(s@[i as int] == x);
            return true;
        }
        i += 1;
    }
    false
}

proof fn lemma_escape_ascii(c: u8, q: u8)
    requires
        q < 0x80,
    ensures
        forall|i: int| 0 <= i < escape_byte(c, q).len() ==> escape_byte(c, q)[i] < 0x80,
{
}

impl PyBytes {
    /// The representation as ASCII bytes.
    pub fn repr_ascii(&self) -> (r: Vec<u8>)
        ensures
            r@ == repr_bytes(self@),
            forall|i: int| 0 <= i < r@.len() ==> r@[i] < 0x80,
    {
        let s = self.as_bytes();
        let q: u8 = if contains_byte(s, 0x27) && !contains_byte(s, 0x22) { 0x22 } else { 0x27 };
        let mut v: Vec<u8> = vec![0x62, q];
        let mut i: usize = 0;
        assert(s@.subrange(0, 0) =~= Seq::<u8>::empty());
        while i < s.len()
            invariant
                i <= s@.len(),
                q == quote_of(s@),
                v@ == seq![0x62u8, q] + escaped(s@.subrange(0, i as int), q),
                forall|j: int| 0 <= j < v@.len() ==> v@[j] < 0x80,
            decreases s@.len() - i,
        {
            let c = s[i];
            let ghost before = v@;
            if c == q || c == 0x5c {
                v.push(0x5c);
                v.push(c);
            } else if c == 0x09 {
                v.push(0x5c);
                v.push(0x74);
            } else if c == 0x0a {
                v.push(0x5c);
                v.push(0x6e);
            } else if c == 0x0d {
                v.push(0x5c);
                v.push(0x72);
            } else if c < 0x20 || c >= 0x7f {
                v.push(0x5c);
                v.push(0x78);
                v.push(hex_digit_exec(c / 16));
                v.push(hex_digit_exec(c % 16));
            } else {
                v.push(c);
            }
            proof {
                lemma_escape_ascii(c, q);
                assert(v@ =~= before + escape_byte(c, q));
                assert(s@.subrange(0, i + 1).drop_last() =~= s@.subrange(0, i as int));
            }
            i += 1;
        }
        v.push(q);
        assert(s@.subrange(0, s@.len() as int) =~= s@);
        assert(v@ =~= repr_bytes(s@));
        v
    }

    /// The canonical printable representation, `b'...'`: backslash and the
    /// quote are escaped, tab, newline and carriage return by letter, and
    /// every other byte outside printable ASCII as `\xhh`.
    pub fn repr(&self) -> (r: String)
        ensures
            r@ == ascii_chars(repr_bytes(self@)),
    {
        ascii_string(self.repr_ascii())
    }
}

/// Whether a separator goes before byte `i` of `len`: counting groups of
/// `n` from the right when `n` is positive, of `-n` from the left when it
/// is negative, and never when it is zero.
pub open spec fn sep_before(len: int, i: int, n: int) -> bool {
    if i <= 0 || n == 0 {
        false
    } else if n > 0 {
        (len - i) % n == 0
    } else {
        i % (-n) == 0
    }
}

/// The hexadecimal text of the first `k` bytes of `s`.
pub open spec fn hex_text(s: Seq<u8>, sep: Option<u8>, n: int, k: int) -> Seq<u8>
    decreases k,
{
    if k <= 0 {
        Seq::empty()
    } else {
        let c = s[k - 1];
        let mid = match sep {
            Some(x) => if sep_before(s.len() as int, k - 1, n) { seq![x] } else { Seq::empty() },
            None => Seq::empty(),
        };
        hex_text(s, sep, n, k - 1) + mid + seq![hex_digit(c / 16), hex_digit(c % 16)]
    }
}

impl PyBytes {
    /// Two lower-case hexadecimal digits per byte; with a separator, it
    /// stands between groups of `bytes_per_sep` bytes, counted from the
    /// right (or of `-bytes_per_sep` from the left where that is negative).
    /// A separator outside ASCII is a value error.
    pub fn hex(&self, sep: Option<u8>, bytes_per_sep: isize) -> (r: Result<String, BytesError>)
        ensures
            sep matches Some(x) && x >= 0x80 ==> r == Err::<String, BytesError>(BytesError::NonAsciiSeparator),
            !(sep matches Some(x) && x >= 0x80) ==> (r matches Ok(t) && t@ == ascii_chars(
                hex_text(self@, sep, bytes_per_sep as int, self@.len() as int),
            )),
    {
        if let Some(x) = sep {
            if x >= 0x80 {
                return Err(BytesError::NonAsciiSeparator);
            }
        }
        let s = self.as_bytes();
        let len = s.len();
        let n = bytes_per_sep as i128;
        let mut v: Vec<u8> = Vec::new();
        let mut k: usize = 0;
        while k < len
            invariant
                k <= len,
                len == s@.len(),
                n == bytes_per_sep as int,
                sep matches Some(x) ==> x < 0x80,
                v@ == hex_text(s@, sep, n as int, k as int),
                forall|j: int| 0 <= j < v@.len() ==> v@[j] < 0x80,
            decreases len - k,
        {
            let c = s[k];
            if let Some(x) = sep {
                let put = if k == 0 || n == 0 {
                    false
                } else if n > 0 {
                    ((len - k) as i128) % n == 0
                } else {
                    (k as i128) % (-n) == 0
                };
                if put {
                    v.push(x);
                }
            }
            v.push(hex_digit_exec(c / 16));
            v.push(hex_digit_exec(c % 16));
            k += 1;
        }
        Ok(ascii_string(v))
    }
}

} // verus!
