//! ASCII classification and case mapping of a byte value. Bytes outside
//! ASCII belong to no class and are left as they are.

use crate::bytes::PyBytes;
use vstd::prelude::*;

verus! {

/// The classes of single bytes that the predicates test.
#[derive(Clone, Copy, Debug, PartialEq, Eq, Structural)]
pub enum ByteClass {
    Lower,
    Upper,
    Alpha,
    Digit,
    Alnum,
    Space,
    Ascii,
}

/// Whether byte `c` belongs to class `k`.
pub open spec fn in_class(c: u8, k: ByteClass) -> bool {
    match k {
        ByteClass::Lower => 0x61 <= c <= 0x7a,
        ByteClass::Upper => 0x41 <= c <= 0x5a,
        ByteClass::Alpha => (0x61 <= c <= 0x7a) || (0x41 <= c <= 0x5a),
        ByteClass::Digit => 0x30 <= c <= 0x39,
        ByteClass::Alnum => (0x61 <= c <= 0x7a) || (0x41 <= c <= 0x5a) || (0x30 <= c <= 0x39),
        ByteClass::Space => c == 0x20 || (0x09 <= c <= 0x0d),
        ByteClass::Ascii => c < 0x80,
    }
}

/// Every byte of `b` is in class `k`.
pub open spec fn all_in(b: Seq<u8>, k: ByteClass) -> bool {
    forall|i: int| 0 <= i < b.len() ==> in_class(#[trigger] b[i], k)
}

/// Some byte of `b` is in class `k`.
pub open spec fn any_in(b: Seq<u8>, k: ByteClass) -> bool {
    exists|i: int| 0 <= i < b.len() && in_class(#[trigger] b[i], k)
}

/// An ASCII upper-case letter mapped to lower case; other bytes unchanged.
pub open spec fn to_lower(c: u8) -> u8 {
    if 0x41 <= c <= 0x5a { (c + 0x20) as u8 } else { c }
}

/// An ASCII lower-case letter mapped to upper case; other bytes unchanged.
pub open spec fn to_upper(c: u8) -> u8 {
    if 0x61 <= c <= 0x7a { (c - 0x20) as u8 } else { c }
}

/// ASCII letters with their case swapped; other bytes unchanged.
pub open spec fn swap_case(c: u8) -> u8 {
    if 0x41 <= c <= 0x5a { (c + 0x20) as u8 } else if 0x61 <= c <= 0x7a { (c - 0x20) as u8 } else { c }
}

/// The ways a whole value can be mapped byte by byte.
#[derive(Clone, Copy, Debug, PartialEq, Eq, Structural)]
pub enum CaseMap {
    Lower,
    Upper,
    Swap,
}

pub open spec fn map_byte(c: u8, m: CaseMap) -> u8 {
    match m {
        CaseMap::Lower => to_lower(c),
        CaseMap::Upper => to_upper(c),
        CaseMap::Swap => swap_case(c),
    }
}

fn in_class_exec(c: u8, k: ByteClass) -> (r: bool)
    ensures
        r == in_class(c, k),
{
    match k {
        ByteClass::Lower => 0x61 <= c && c <= 0x7a,
        ByteClass::Upper => 0x41 <= c && c <= 0x5a,
        ByteClass::Alpha => (0x61 <= c && c <= 0x7a) || (0x41 <= c && c <= 0x5a),
        ByteClass::Digit => 0x30 <= c && c <= 0x39,
        ByteClass::Alnum => (0x61 <= c && c <= 0x7a) || (0x41 <= c && c <= 0x5a) || (0x30 <= c && c
            <= 0x39),
        ByteClass::Space => c == 0x20 || (0x09 <= c && c <= 0x0d),
        ByteClass::Ascii => c < 0x80,
    }
}

fn map_byte_exec(c: u8, m: CaseMap) -> (r: u8)
    ensures
        r == map_byte(c, m),
{
    let lower = 0x41 <= c && c <= 0x5a;
    let upper = 0x61 <= c && c <= 0x7a;
    match m {
        CaseMap::Lower => if lower { c + 0x20 } else { c },
        CaseMap::Upper => if upper { c - 0x20 } else { c },
        CaseMap::Swap => if lower { c + 0x20 } else if upper { c - 0x20 } else { c },
    }
}

/// Whether every byte of `b` is in class `k`.
fn all_in_exec(b: &[u8], k: ByteClass) -> (r: bool)
    ensures
        r == all_in(b@, k),
{
    let mut i: usize = 0;
    while i < b.len()
        invariant
            i <= b@.len(),
            forall|j: int| 0 <= j < i ==> in_class(#[trigger] b@[j], k),
        decreases b@.len() - i,
    {
        if !in_class_exec(b[i], k) {
            return false;
        }
        i += 1;
    }
    true
}

/// Whether some byte of `b` is in class `k`.
fn any_in_exec(b: &[u8], k: ByteClass) -> (r: bool)
    ensures
        r == any_in(b@, k),
{
    let mut i: usize = 0;
    while i < b.len()
        invariant
            i <= b@.len(),
            forall|j: int| 0 <= j < i ==> !in_class(#[trigger] b@[j], k),
        decreases b@.len() - i,
    {
        if in_class_exec(b[i], k) {
            assert(in_class(b@[i as int], k));
            return true;
        }
        i += 1;
    }
    false
}

/// `b` mapped byte by byte; with `first` set, the first byte is mapped to
/// upper case and the rest by `m`.
fn map_exec(b: &[u8], m: CaseMap, first: bool) -> (r: Vec<u8>)
    ensures
        r@.len() == b@.len(),
        forall|i: int|
            0 <= i < b@.len() ==> #[trigger] r@[i] == if first && i == 0 {
                to_upper(b@[i])
            } else {
                map_byte(b@[i], m)
            },
{
    let mut v: Vec<u8> = Vec::with_capacity(b.len());
    let mut i: usize = 0;
    while i < b.len()
        invariant
            i <= b@.len(),
            v@.len() == i,
            forall|j: int|
                0 <= j < i ==> #[trigger] v@[j] == if first && j == 0 {
                    to_upper(b@[j])
                } else {
                    map_byte(b@[j], m)
                },
        decreases b@.len() - i,
    {
        let c = if first && i == 0 {
            map_byte_exec(b[i], CaseMap::Upper)
        } else {
            map_byte_exec(b[i], m)
        };
        v.push(c);
        i += 1;
    }
    v
}

impl PyBytes {
    /// Non-empty, and every byte an ASCII letter or digit.
    pub fn isalnum(&self) -> (r: bool)
        ensures
            r == (self@.len() > 0 && all_in(self@, ByteClass::Alnum)),
    {
        !self.is_empty() && all_in_exec(self.as_bytes(), ByteClass::Alnum)
    }

    /// Non-empty, and every byte an ASCII letter.
    pub fn isalpha(&self) -> (r: bool)
        ensures
            r == (self@.len() > 0 && all_in(self@, ByteClass::Alpha)),
    {
        !self.is_empty() && all_in_exec(self.as_bytes(), ByteClass::Alpha)
    }

    /// Every byte below 0x80 (true of the empty value).
    pub fn isascii(&self) -> (r: bool)
        ensures
            r == all_in(self@, ByteClass::Ascii),
    {
        all_in_exec(self.as_bytes(), ByteClass::Ascii)
    }

    /// Non-empty, and every byte an ASCII digit.
    pub fn isdigit(&self) -> (r: bool)
        ensures
            r == (self@.len() > 0 && all_in(self@, ByteClass::Digit)),
    {
        !self.is_empty() && all_in_exec(self.as_bytes(), ByteClass::Digit)
    }

    /// Non-empty, and every byte ASCII white space.
    pub fn isspace(&self) -> (r: bool)
        ensures
            r == (self@.len() > 0 && all_in(self@, ByteClass::Space)),
    {
        !self.is_empty() && all_in_exec(self.as_bytes(), ByteClass::Space)
    }

    /// Some lower-case letter and no upper-case one.
    pub fn islower(&self) -> (r: bool)
        ensures
            r == (any_in(self@, ByteClass::Lower) && !any_in(self@, ByteClass::Upper)),
    {
        any_in_exec(self.as_bytes(), ByteClass::Lower) && !any_in_exec(self.as_bytes(), ByteClass::Upper)
    }

    /// Some upper-case letter and no lower-case one.
    pub fn isupper(&self) -> (r: bool)
        ensures
            r == (any_in(self@, ByteClass::Upper) && !any_in(self@, ByteClass::Lower)),
    {
        any_in_exec(self.as_bytes(), ByteClass::Upper) && !any_in_exec(self.as_bytes(), ByteClass::Lower)
    }

    /// A new value with ASCII letters in lower case.
    pub fn lower(&self) -> (r: PyBytes)
        ensures
            r@ == self@.map_values(|c: u8| to_lower(c)),
    {
        let v = map_exec(self.as_bytes(), CaseMap::Lower, false);
        assert(v@ =~= self@.map_values(|c: u8| to_lower(c)));
        PyBytes::from(v)
    }

    /// A new value with ASCII letters in upper case.
    pub fn upper(&self) -> (r: PyBytes)
        ensures
            r@ == self@.map_values(|c: u8| to_upper(c)),
    {
        let v = map_exec(self.as_bytes(), CaseMap::Upper, false);
        assert(v@ =~= self@.map_values(|c: u8| to_upper(c)));
        PyBytes::from(v)
    }

    /// A new value with the case of ASCII letters swapped.
    pub fn swapcase(&self) -> (r: PyBytes)
        ensures
            r@ == self@.map_values(|c: u8| swap_case(c)),
    {
        let v = map_exec(self.as_bytes(), CaseMap::Swap, false);
        assert(v@ =~= self@.map_values(|c: u8| swap_case(c)));
        PyBytes::from(v)
    }

    /// A new value with the first byte in upper case and the rest in lower
    /// case.
    pub fn capitalize(&self) -> (r: PyBytes)
        ensures
            r@.len() == self@.len(),
            self@.len() > 0 ==> r@[0] == to_upper(self@[0]),
            forall|i: int| 1 <= i < self@.len() ==> #[trigger] r@[i] == to_lower(self@[i]),
    {
        let v = map_exec(self.as_bytes(), CaseMap::Lower, true);
        PyBytes::from(v)
    }
}

/// The byte before index `i` is an ASCII letter.
pub open spec fn after_letter(s: Seq<u8>, i: int) -> bool {
    i > 0 && in_class(s[i - 1], ByteClass::Alpha)
}

/// A letter that starts a word in upper case, any other letter in lower
/// case; other bytes unchanged.
pub open spec fn title_byte(s: Seq<u8>, i: int) -> u8 {
    if in_class(s[i], ByteClass::Alpha) {
        if after_letter(s, i) { to_lower(s[i]) } else { to_upper(s[i]) }
    } else {
        s[i]
    }
}

/// Some letter, every upper-case letter starts a word and every
/// lower-case letter follows a letter.
pub open spec fn is_title(s: Seq<u8>) -> bool {
    &&& any_in(s, ByteClass::Alpha)
    &&& forall|i: int| 0 <= i < s.len() && in_class(#[trigger] s[i], ByteClass::Upper) ==> !after_letter(s, i)
    &&& forall|i: int| 0 <= i < s.len() && in_class(#[trigger] s[i], ByteClass::Lower) ==> after_letter(s, i)
}

impl PyBytes {
    /// A new value with each word's first letter in upper case and its
    /// other letters in lower case; a word is a run of ASCII letters.
    pub fn title(&self) -> (r: PyBytes)
        ensures
            r@.len() == self@.len(),
            forall|i: int| 0 <= i < self@.len() ==> #[trigger] r@[i] == title_byte(self@, i),
    {
        let s = self.as_bytes();
        let mut v: Vec<u8> = Vec::with_capacity(s.len());
        let mut prev_letter = false;
        let mut i: usize = 0;
        while i < s.len()
            invariant
                i <= s@.len(),
                v@.len() == i,
                s@ == self@,
                prev_letter == after_letter(s@, i as int),
                forall|j: int| 0 <= j < i ==> #[trigger] v@[j] == title_byte(s@, j),
            decreases s@.len() - i,
        {
            let c = s[i];
            let letter = in_class_exec(c, ByteClass::Alpha);
            let m = if !letter {
                c
            } else if prev_letter {
                map_byte_exec(c, CaseMap::Lower)
            } else {
                map_byte_exec(c, CaseMap::Upper)
            };
            v.push(m);
            prev_letter = letter;
            i += 1;
        }
        PyBytes::from(v)
    }

    /// Whether the value is in title case: some letter, each upper-case
    /// letter starts a word and each lower-case letter continues one.
    pub fn istitle(&self) -> (r: bool)
        ensures
            r == is_title(self@),
    {
        let s = self.as_bytes();
        let mut prev_letter = false;
        let mut cased = false;
        let mut i: usize = 0;
        while i < s.len()
            invariant
                i <= s@.len(),
                s@ == self@,
                prev_letter == after_letter(s@, i as int),
                cased == any_in(s@.subrange(0, i as int), ByteClass::Alpha),
                forall|j: int| 0 <= j < i && in_class(#[trigger] s@[j], ByteClass::Upper) ==> !after_letter(s@, j),
                forall|j: int| 0 <= j < i && in_class(#[trigger] s@[j], ByteClass::Lower) ==> after_letter(s@, j),
            decreases s@.len() - i,
        {
            let c = s[i];
            let ghost sub = s@.subrange(0, i + 1);
            assert(sub[i as int] == c);
            if in_class_exec(c, ByteClass::Upper) {
                if prev_letter {
                    assert(in_class(s@[i as int], ByteClass::Upper) && after_letter(s@, i as int));
                    return false;
                }
                prev_letter = true;
                cased = true;
            } else if in_class_exec(c, ByteClass::Lower) {
                if !prev_letter {
                    assert(in_class(s@[i as int], ByteClass::Lower) && !after_letter(s@, i as int));
                    return false;
                }
                prev_letter = true;
                cased = true;
            } else {
                prev_letter = false;
            }
            proof {
                assert forall|j: int| 0 <= j < i implies sub[j] == #[trigger] s@.subrange(0, i as int)[j] by {}
                if !cased {
                    assert(!any_in(sub, ByteClass::Alpha));
                } else {
                    if in_class(c, ByteClass::Alpha) {
                        assert(in_class(sub[i as int], ByteClass::Alpha));
                    } else {
                        let k = choose|k: int| 0 <= k < i && in_class(#[trigger] s@.subrange(0, i as int)[k], ByteClass::Alpha);
                        assert(in_class(sub[k], ByteClass::Alpha));
                    }
                }
            }
            i += 1;
        }
        proof {
            assert(s@.subrange(0, s@.len() as int) =~= s@);
        }
        cased
    }
}

} // verus!
