//! A cursor over a byte value, with save and restore of its position.

use crate::bytes::PyBytes;
use std::rc::Rc;
use vstd::prelude::*;

verus! {

/// Where an iterator stands: at a position in its source, or finished.
#[derive(Clone, Copy, Debug, PartialEq, Eq, Structural)]
pub enum IterStatus {
    Active(usize),
    Exhausted,
}

/// Iteration over the bytes of a shared byte value. The source is held,
/// not copied, so it lives as long as the iterator. Every operation that
/// reads or moves the cursor takes the iterator exclusively.
#[derive(Debug)]
pub struct PyBytesIterator {
    source: Rc<PyBytes>,
    status: IterStatus,
}

/// The saved state of an iterator: its source and position, or the mark of
/// one that has finished.
#[derive(Debug)]
pub enum IterReduction {
    Active(Rc<PyBytes>, usize),
    Exhausted,
}

/// Relies on std's `Rc::clone`: a new pointer to the same allocation, so to
/// the same value.
#[verifier::external_body]
fn share(r: &Rc<PyBytes>) -> (s: Rc<PyBytes>)
    ensures
        s == *r,
{
    Rc::clone(r)
}

/// A requested position clamped to the bounds of a source of length `len`.
pub open spec fn clamp_position(len: int, state: int) -> int {
    if state < 0 {
        0
    } else if state > len {
        len
    } else {
        state
    }
}

impl PyBytesIterator {
    /// The bytes being iterated.
    pub closed spec fn source(&self) -> Seq<u8> {
        self.source@
    }

    /// The cursor, while the iterator is active.
    pub closed spec fn status(&self) -> IterStatus {
        self.status
    }

    /// The cursor never passes the end of the source.
    pub open spec fn wf(&self) -> bool {
        self.status() matches IterStatus::Active(p) ==> p <= self.source().len()
    }

    /// The bytes that `next` would still yield.
    pub open spec fn remaining(&self) -> Seq<u8> {
        match self.status() {
            IterStatus::Active(p) => self.source().subrange(p as int, self.source().len() as int),
            IterStatus::Exhausted => Seq::empty(),
        }
    }

    /// The next byte, advancing the cursor; once past the end the
    /// iterator is exhausted for good and yields nothing more.
    pub fn next(&mut self) -> (r: Option<u8>)
        requires
            old(self).wf(),
        ensures
            final(self).wf(),
            final(self).source() == old(self).source(),
            match old(self).status() {
                IterStatus::Active(p) => if p < old(self).source().len() {
                    r == Some(old(self).source()[p as int]) && final(self).status()
                        == IterStatus::Active((p + 1) as usize)
                } else {
                    r is None && final(self).status() == IterStatus::Exhausted
                },
                IterStatus::Exhausted => r is None && final(self).status() == IterStatus::Exhausted,
            },
    {
        match self.status {
            IterStatus::Active(p) => {
                let b = self.source.as_bytes();
                if p < b.len() {
                    let x = b[p];
                    self.status = IterStatus::Active(p + 1);
                    Some(x)
                } else {
                    self.status = IterStatus::Exhausted;
                    None
                }
            },
            IterStatus::Exhausted => None,
        }
    }

    /// How many bytes remain: a sizing hint for consumers.
    pub fn length_hint(&self) -> (r: usize)
        requires
            self.wf(),
        ensures
            r == self.remaining().len(),
    {
        match self.status {
            IterStatus::Active(p) => self.source.len() - p,
            IterStatus::Exhausted => 0,
        }
    }

    /// The state that rebuilds an equivalent iterator: the source itself
    /// and the cursor, or the mark of an exhausted iterator.
    pub fn reduce(&self) -> (r: IterReduction)
        ensures
            match self.status() {
                IterStatus::Active(p) => r matches IterReduction::Active(s, q) && s@ == self.source()
                    && q == p,
                IterStatus::Exhausted => r is Exhausted,
            },
    {
        match self.status {
            IterStatus::Active(p) => IterReduction::Active(share(&self.source), p),
            IterStatus::Exhausted => IterReduction::Exhausted,
        }
    }

    /// Moves the cursor of an active iterator to `state`, clamped to the
    /// bounds of the source; an exhausted iterator stays so.
    pub fn setstate(&mut self, state: isize)
        requires
            old(self).wf(),
        ensures
            final(self).wf(),
            final(self).source() == old(self).source(),
            match old(self).status() {
                IterStatus::Active(_) => final(self).status() == IterStatus::Active(
                    clamp_position(old(self).source().len() as int, state as int) as usize,
                ),
                IterStatus::Exhausted => final(self).status() == IterStatus::Exhausted,
            },
    {
        if let IterStatus::Active(_) = self.status {
            let len = self.source.len();
            let p: usize = if state < 0 {
                0
            } else if state as usize > len {
                len
            } else {
                state as usize
            };
            self.status = IterStatus::Active(p);
        }
    }
}

impl PyBytes {
    /// A fresh iterator over a shared byte value, at its first byte.
    pub fn iter(zelf: Rc<PyBytes>) -> (r: PyBytesIterator)
        ensures
            r.wf(),
            r.source() == zelf@,
            r.status() == IterStatus::Active(0),
            r.remaining() == zelf@,
    {
        let r = PyBytesIterator { source: zelf, status: IterStatus::Active(0) };
        assert(r.remaining() =~= zelf@);
        r
    }
}

} // verus!
