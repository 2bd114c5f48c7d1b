//! Lexicographic order on byte sequences, the comparison protocol and the
//! content hash.

use crate::bytes::PyBytes;
use crate::object::{BytesError, CompareOp, Comparison, Object};
use std::hash::BuildHasher;
use vstd::prelude::*;

verus! {

/// Lexicographic comparison: negative, zero or positive as `a` orders
/// before, equal to or after `b`.
pub open spec fn lex_cmp(a: Seq<u8>, b: Seq<u8>) -> int
    decreases a.len(),
{
    if a.len() == 0 {
        if b.len() == 0 { 0 } else { -1 }
    } else if b.len() == 0 {
        1
    } else if a[0] < b[0] {
        -1
    } else if a[0] > b[0] {
        1
    } else {
        lex_cmp(a.drop_first(), b.drop_first())
    }
}

/// Whether `op` holds of two operands whose comparison came out as `c`.
pub open spec fn op_holds(op: CompareOp, c: int) -> bool {
    match op {
        CompareOp::Lt => c < 0,
        CompareOp::Le => c <= 0,
        CompareOp::Eq => c == 0,
        CompareOp::Ne => c != 0,
        CompareOp::Gt => c > 0,
        CompareOp::Ge => c >= 0,
    }
}

/// Whether `op` orders its operands rather than testing them for equality.
pub open spec fn is_ordering(op: CompareOp) -> bool {
    op != CompareOp::Eq && op != CompareOp::Ne
}

/// Two sequences compare as equal exactly when they are the same sequence.
pub proof fn lemma_lex_cmp_zero(a: Seq<u8>, b: Seq<u8>)
    ensures
        (lex_cmp(a, b) == 0) == (a == b),
    decreases a.len(),
{
    if a.len() != 0 && b.len() != 0 && a[0] == b[0] {
        lemma_lex_cmp_zero(a.drop_first(), b.drop_first());
        if a.drop_first() == b.drop_first() {
            assert(a =~= seq![a[0]] + a.drop_first());
            assert(b =~= seq![b[0]] + b.drop_first());
        }
        if a == b {
            assert(a.drop_first() =~= b.drop_first());
        }
    } else if a.len() != 0 && b.len() != 0 {
        assert(a[0] != b[0]);
    } else if a.len() != b.len() {
        assert(a.len() != b.len());
    } else {
        assert(a =~= b);
    }
}

/// The result of `lex_cmp`, as -1, 0 or 1.
pub fn compare_bytes(a: &[u8], b: &[u8]) -> (r: i8)
    ensures
        r as int == lex_cmp(a@, b@),
        -1 <= r <= 1,
{
    let mut i: usize = 0;
    assert(a@.skip(0) =~= a@);
    assert(b@.skip(0) =~= b@);
    while i < a.len() && i < b.len()
        invariant
            i <= a@.len(),
            i <= b@.len(),
            lex_cmp(a@, b@) == lex_cmp(a@.skip(i as int), b@.skip(i as int)),
        decreases a@.len() - i,
    {
        if a[i] < b[i] {
            return -1;
        }
        if a[i] > b[i] {
            return 1;
        }
        assert(a@.skip(i as int).drop_first() =~= a@.skip(i + 1));
        assert(b@.skip(i as int).drop_first() =~= b@.skip(i + 1));
        i += 1;
    }
    if a.len() == b.len() {
        0
    } else if i == a.len() {
        -1
    } else {
        1
    }
}

/// Relies on std's `BuildHasher::hash_one`, with the default SipHash
/// hasher built by `BuildHasherDefault`: its keys are fixed, so the hash is
/// a function of the bytes alone.
pub uninterp spec fn byte_hash(b: Seq<u8>) -> u64;

/// Relies on std's `BuildHasher::hash_one` over `DefaultHasher` with fixed
/// keys: the result depends on the bytes alone.
#[verifier::external_body]
fn hash_bytes(b: &[u8]) -> (r: u64)
    ensures
        r == byte_hash(b@),
{
    std::hash::BuildHasherDefault::<std::hash::DefaultHasher>::default().hash_one(b)
}

impl PyBytes {
    /// The content hash: stable for the value's lifetime, equal for equal
    /// contents.
    pub fn hash(&self) -> (r: u64)
        ensures
            r == byte_hash(self@),
    {
        hash_bytes(self.as_bytes())
    }

    /// The comparison protocol. `identical` tells that `other` is this very
    /// object, which settles every operator by reflexivity. An ordering
    /// operator against a buffer view is a type error; an operand that is
    /// not byte-sequence-like is left to the reflected operation.
    pub fn cmp(&self, other: &Object, op: CompareOp, identical: bool) -> (r: Result<
        Comparison,
        BytesError,
    >)
        requires
            identical ==> (other matches Object::Bytes(o) && o@ == self@),
        ensures
            identical ==> r == Ok::<Comparison, BytesError>(Comparison::Bool(op_holds(op, 0))),
            !identical ==> match other {
                Object::MemoryView(o) => if is_ordering(op) {
                    r == Err::<Comparison, BytesError>(BytesError::OrderingWithView)
                } else {
                    r == Ok::<Comparison, BytesError>(
                        Comparison::Bool(op_holds(op, lex_cmp(self@, o@))),
                    )
                },
                Object::Bytes(o) => r == Ok::<Comparison, BytesError>(
                    Comparison::Bool(op_holds(op, lex_cmp(self@, o@))),
                ),
                _ => r == Ok::<Comparison, BytesError>(Comparison::NotImplemented),
            },
    {
        if identical {
            return Ok(Comparison::Bool(apply_op(op, 0)));
        }
        match other {
            Object::MemoryView(o) => {
                match op {
                    CompareOp::Eq | CompareOp::Ne => {},
                    _ => {
                        return Err(BytesError::OrderingWithView);
                    },
                }
                Ok(Comparison::Bool(apply_op(op, compare_bytes(self.as_bytes(), o.as_slice()))))
            },
            Object::Bytes(o) => Ok(
                Comparison::Bool(apply_op(op, compare_bytes(self.as_bytes(), o.as_slice()))),
            ),
            _ => Ok(Comparison::NotImplemented),
        }
    }
}

fn apply_op(op: CompareOp, c: i8) -> (r: bool)
    ensures
        r == op_holds(op, c as int),
{
    match op {
        CompareOp::Lt => c < 0,
        CompareOp::Le => c <= 0,
        CompareOp::Eq => c == 0,
        CompareOp::Ne => c != 0,
        CompareOp::Gt => c > 0,
        CompareOp::Ge => c >= 0,
    }
}

} // verus!
