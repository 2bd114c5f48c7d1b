//! Laws that relate several operations of the byte value.

use crate::bytes::PyBytes;
use crate::compare::byte_hash;
use crate::iter::{clamp_position, IterStatus, PyBytesIterator};
use crate::object::SliceArgs;
use crate::slice::{before_stop, lemma_slice_visits, slice_index, slice_len, sliced, step_of};
use vstd::prelude::*;

verus! {

/// Hashing depends on the contents alone: two values with the same bytes
/// hash alike, whatever their runtime types, and a value hashes alike for
/// its whole lifetime.
pub proof fn lemma_hash_repeatable(x: PyBytes, y: PyBytes)
    requires
        x@ == y@,
    ensures
        byte_hash(x@) == byte_hash(y@),
{
}

/// Equality is by contents: two values built from the same bytes are
/// equal, whether or not they are the same object and whatever their
/// runtime types.
pub proof fn lemma_equal_by_contents(x: PyBytes, y: PyBytes)
    requires
        x@ == y@,
    ensures
        <PyBytes as vstd::std_specs::cmp::PartialEqSpec>::eq_spec(&x, &y),
{
}

/// A slice with a nonzero step has as many bytes as the indices it visits,
/// which all lie inside the value and are exactly the steps that come
/// before the stop; and indexing the value at those indices one by one
/// gives the slice back.
pub proof fn lemma_slice_round_trip(b: Seq<u8>, a: SliceArgs)
    requires
        step_of(a) != 0,
    ensures
        sliced(b, a).len() == slice_len(b.len() as int, a),
        forall|k: int|
            0 <= k < slice_len(b.len() as int, a) ==> 0 <= #[trigger] slice_index(b.len() as int, a, k)
                < b.len() && sliced(b, a)[k] == b[slice_index(b.len() as int, a, k)],
        forall|k: int| k >= 0 ==> (k < slice_len(b.len() as int, a) <==> #[trigger] before_stop(b.len() as int, a, k)),
{
    let len = b.len() as int;
    assert forall|k: int|
        0 <= k < slice_len(len, a) implies 0 <= #[trigger] slice_index(len, a, k) < b.len()
            && sliced(b, a)[k] == b[slice_index(len, a, k)] by {
        lemma_slice_visits(len, a, k);
    }
    assert forall|k: int| k >= 0 implies (k < slice_len(len, a) <==> #[trigger] before_stop(len, a, k)) by {
        lemma_slice_visits(len, a, k);
    }
}

/// Saving an active iterator's position and restoring it into a fresh
/// iterator over the same source gives an iterator that yields the same
/// remaining bytes.
pub proof fn lemma_restore_position(saved: PyBytesIterator, restored: PyBytesIterator, p: usize)
    requires
        saved.wf(),
        saved.status() == IterStatus::Active(p),
        restored.source() == saved.source(),
        restored.status() == IterStatus::Active(
            clamp_position(saved.source().len() as int, p as int) as usize,
        ),
    ensures
        restored.remaining() == saved.remaining(),
{
}

} // verus!
