//! The immutable byte-sequence value of a dynamically typed runtime.
//!
//! A [`PyBytes`] holds a fixed sequence of bytes and the runtime type it was
//! built with. Its protocols cover indexing and slicing, concatenation and
//! repetition (with the identity rule for a multiplication by one),
//! containment, ordering and equality with the rule for buffer views,
//! hashing, read-only buffer export, reduction, and a cursor iterator with
//! save and restore. Around them stand the byte-string operations: search,
//! split, strip, pad, case mapping, translation and printable forms.
//!
//! Every operation is verified against a model of its result over `Seq<u8>`.

pub mod ascii;
pub mod bytes;
pub mod compare;
pub mod find;
pub mod hexjoin;
pub mod iter;
pub mod laws;
pub mod lines;
pub mod object;
pub mod pad;
pub mod replace;
pub mod repr;
pub mod search;
pub mod slice;
pub mod split;
pub mod translate;
pub mod trim;

pub use bytes::PyBytes;
pub use iter::PyBytesIterator;
