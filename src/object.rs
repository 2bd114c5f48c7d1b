//! The runtime values that the byte value's protocols receive and return.

use vstd::prelude::*;

verus! {

/// The runtime type of a byte value: the base immutable type itself, or a
/// type derived from it, named by the object model's type id.
#[derive(Clone, Copy, Debug, PartialEq, Eq, Structural)]
pub enum BytesType {
    Base,
    Derived(u64),
}

/// Slice bounds as a caller writes them: each part may be left out.
#[derive(Clone, Copy, Debug, PartialEq, Eq, Structural)]
pub struct SliceArgs {
    pub start: Option<isize>,
    pub stop: Option<isize>,
    pub step: Option<isize>,
}

/// A generic operand, as the object model hands it to a protocol entry.
#[derive(Clone, Debug)]
pub enum Object {
    /// An integer.
    Int(i64),
    /// Any value that exports its bytes and is not a buffer view
    /// (a byte value or a mutable byte buffer).
    Bytes(Vec<u8>),
    /// A buffer view onto some owner's bytes.
    MemoryView(Vec<u8>),
    /// A text string.
    Str(String),
    /// A slice descriptor.
    Slice(SliceArgs),
    /// Anything else.
    Other,
}

impl Object {
    /// The bytes this operand exports, where it is byte-sequence-like.
    pub open spec fn bytes_like(&self) -> Option<Seq<u8>> {
        match self {
            Object::Bytes(b) => Some(b@),
            Object::MemoryView(b) => Some(b@),
            _ => None,
        }
    }
}

/// The operand of a containment test, resolved once at the call boundary.
#[derive(Clone, Debug)]
pub enum Needle {
    /// A contiguous sub-sequence.
    Bytes(Vec<u8>),
    /// A single byte, given as an integer.
    Int(i64),
}

/// The first argument of a prefix or suffix test: one byte sequence, or a
/// tuple of candidates of which any may match.
#[derive(Clone, Debug)]
pub enum Affix {
    One(Object),
    Many(Vec<Object>),
}

/// The six comparison operators.
#[derive(Clone, Copy, Debug, PartialEq, Eq, Structural)]
pub enum CompareOp {
    Lt,
    Le,
    Eq,
    Ne,
    Gt,
    Ge,
}

/// The failures that the byte value's operations report.
#[derive(Clone, Copy, Debug, PartialEq, Eq, Structural)]
pub enum BytesError {
    /// IndexError: a single index out of bounds after wraparound.
    IndexOutOfRange,
    /// TypeError: an operand that is not of a supported type.
    UnsupportedOperand,
    /// TypeError: an ordering comparison against a buffer view.
    OrderingWithView,
    /// ValueError: an integer that is not a byte.
    ByteOutOfRange,
    /// ValueError: a slice step of zero.
    ZeroStep,
    /// ValueError: an empty separator.
    EmptySeparator,
    /// ValueError: a searched sub-sequence that does not occur.
    SubstringNotFound,
    /// ValueError: translation arguments of unequal length.
    UnequalLengths,
    /// ValueError: a translation table without 256 entries.
    BadTableLength,
    /// ValueError: a hexadecimal separator outside ASCII.
    NonAsciiSeparator,
    /// ValueError: text that is not pairs of hexadecimal digits.
    InvalidHex,
    /// OverflowError: a repetition longer than `isize::MAX` bytes.
    Overflow,
}

/// What the sequence protocol's comparison entry reports.
#[derive(Clone, Copy, Debug, PartialEq, Eq, Structural)]
pub enum Comparison {
    /// The comparison holds or not.
    Bool(bool),
    /// The other operand is not byte-sequence-like: the dispatcher is to
    /// try the reflected operation.
    NotImplemented,
}

/// A byte that an integer stands for, where it is in `0..=255`.
pub open spec fn byte_of(v: i64) -> Option<u8> {
    if 0 <= v <= 255 {
        Some(v as u8)
    } else {
        None
    }
}

/// The bytes a needle stands for, where an integer needle is a byte.
pub open spec fn needle_seq(n: Needle) -> Option<Seq<u8>> {
    match n {
        Needle::Bytes(b) => Some(b@),
        Needle::Int(v) => match byte_of(v) {
            Some(x) => Some(seq![x]),
            None => None,
        },
    }
}

impl Needle {
    /// Resolves a generic operand into a needle: a byte sequence or an
    /// integer; anything else is a type error.
    pub fn try_from_object(obj: &Object) -> (r: Result<Needle, BytesError>)
        ensures
            match obj {
                Object::Int(v) => r == Ok::<Needle, BytesError>(Needle::Int(*v)),
                Object::Bytes(b) | Object::MemoryView(b) => match r {
                    Ok(Needle::Bytes(n)) => n@ == b@,
                    _ => false,
                },
                _ => r == Err::<Needle, BytesError>(BytesError::UnsupportedOperand),
            },
    {
        match obj {
            Object::Int(v) => Ok(Needle::Int(*v)),
            Object::Bytes(b) | Object::MemoryView(b) => Ok(Needle::Bytes(copy_bytes(b.as_slice()))),
            _ => Err(BytesError::UnsupportedOperand),
        }
    }
}

/// A fresh vector holding the same bytes as `s`.
pub fn copy_bytes(s: &[u8]) -> (r: Vec<u8>)
    ensures
        r@ == s@,
{
    let mut r: Vec<u8> = Vec::with_capacity(s.len());
    let mut i: usize = 0;
    while i < s.len()
        invariant
            i <= s@.len(),
            r@ == s@.subrange(0, i as int),
        decreases s@.len() - i,
    {
        r.push(s[i]);
        i += 1;
    }
    r
}

} // verus!
