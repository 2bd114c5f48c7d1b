//! The immutable byte value and its protocols.

use crate::compare::{compare_bytes, lemma_lex_cmp_zero};
use crate::object::{byte_of, copy_bytes, BytesError, BytesType, Needle, Object, SliceArgs};
use crate::search::{contains_bytes, contains_seq};
use crate::slice::{
    lemma_slice_visits, lemma_steps_within, slice_index, slice_len, slice_start, slice_stop, sliced, step_of,
};
use std::rc::Rc;
use vstd::arithmetic::mul::lemma_mul_inequality;
use vstd::prelude::*;

verus! {

/// An immutable sequence of bytes, tagged with its runtime type.
///
/// No operation of this type changes `elements` once the value is built;
/// every transformation returns a new value.
#[derive(Clone, Debug)]
pub struct PyBytes {
    elements: Vec<u8>,
    class: BytesType,
}

/// What the mapping protocol's subscript returns.
#[derive(Clone, Debug)]
pub enum Item {
    /// A single index selects one byte, as an integer.
    Int(u8),
    /// A slice selects a new byte value.
    Bytes(PyBytes),
}

/// A negative index counts from the end, once.
pub open spec fn wrap_index(len: int, i: int) -> int {
    if i < 0 { i + len } else { i }
}

/// `b` repeated `n` times; a count below one gives the empty sequence.
pub open spec fn repeat_seq(b: Seq<u8>, n: int) -> Seq<u8>
    decreases n,
{
    if n <= 0 { Seq::empty() } else { repeat_seq(b, n - 1) + b }
}

impl View for PyBytes {
    type V = Seq<u8>;

    closed spec fn view(&self) -> Seq<u8> {
        self.elements@
    }
}

impl From<Vec<u8>> for PyBytes {
    /// A value of the base type that takes ownership of `elements`.
    fn from(elements: Vec<u8>) -> (r: Self)
        ensures
            r@ == elements@,
            r.class() == BytesType::Base,
    {
        PyBytes { elements, class: BytesType::Base }
    }
}

impl vstd::std_specs::convert::FromSpecImpl<Vec<u8>> for PyBytes {
    open spec fn obeys_from_spec() -> bool {
        true
    }

    closed spec fn from_spec(v: Vec<u8>) -> PyBytes {
        PyBytes { elements: v, class: BytesType::Base }
    }
}

impl PyBytes {
    /// The runtime type this value was built with.
    pub closed spec fn class(&self) -> BytesType {
        self.class
    }

    /// Builds a value of runtime type `cls` from a byte vector.
    pub fn py_new(cls: BytesType, elements: Vec<u8>) -> (r: Self)
        ensures
            r@ == elements@,
            r.class() == cls,
    {
        PyBytes { elements, class: cls }
    }

    /// Builds a shared value of the base type.
    pub fn new_ref(data: Vec<u8>) -> (r: Rc<Self>)
        ensures
            r@ == data@,
            r.class() == BytesType::Base,
    {
        Rc::new(PyBytes::from(data))
    }

    /// The runtime type this value was built with.
    pub fn get_class(&self) -> (r: BytesType)
        ensures
            r == self.class(),
    {
        self.class
    }

    /// Whether the runtime type is exactly the base type, not a derived one.
    pub fn is_exact(&self) -> (r: bool)
        ensures
            r == (self.class() == BytesType::Base),
    {
        match self.class {
            BytesType::Base => true,
            BytesType::Derived(_) => false,
        }
    }

    pub fn len(&self) -> (r: usize)
        ensures
            r == self@.len(),
    {
        self.elements.len()
    }

    pub fn is_empty(&self) -> (r: bool)
        ensures
            r == (self@.len() == 0),
    {
        self.elements.len() == 0
    }

    /// The bytes themselves, borrowed.
    pub fn as_bytes(&self) -> (r: &[u8])
        ensures
            r@ == self@,
    {
        self.elements.as_slice()
    }

    /// Concatenation: a new base value holding `self` then `other`.
    pub fn add(&self, other: &[u8]) -> (r: PyBytes)
        requires
            self@.len() + other@.len() <= usize::MAX,
        ensures
            r@ == self@ + other@,
            r.class() == BytesType::Base,
    {
        let mut v: Vec<u8> = copy_bytes(self.elements.as_slice());
        let mut i: usize = 0;
        while i < other.len()
            invariant
                i <= other@.len(),
                v@ == self@ + other@.subrange(0, i as int),
            decreases other@.len() - i,
        {
            v.push(other[i]);
            i += 1;
            assert(other@.subrange(0, i as int) == other@.subrange(0, i - 1) + seq![other@[i - 1]]);
        }
        assert(other@.subrange(0, other@.len() as int) == other@);
        PyBytes::from(v)
    }

    /// The sequence protocol's concatenation: `other` must be
    /// byte-sequence-like, else it is a type error.
    pub fn concat(&self, other: &Object) -> (r: Result<PyBytes, BytesError>)
        requires
            other.bytes_like() is Some ==> self@.len() + other.bytes_like()->0.len() <= usize::MAX,
        ensures
            match other.bytes_like() {
                Some(o) => r is Ok && r->Ok_0@ == self@ + o,
                None => r == Err::<PyBytes, BytesError>(BytesError::UnsupportedOperand),
            },
    {
        match other {
            Object::Bytes(b) | Object::MemoryView(b) => Ok(self.add(b.as_slice())),
            _ => Err(BytesError::UnsupportedOperand),
        }
    }

    /// Containment of a sub-sequence, or of a single byte given as an
    /// integer; an integer outside `0..=255` is a value error.
    pub fn contains(&self, needle: &Needle) -> (r: Result<bool, BytesError>)
        ensures
            match needle {
                Needle::Bytes(n) => r == Ok::<bool, BytesError>(contains_seq(self@, n@)),
                Needle::Int(v) => match byte_of(*v) {
                    Some(x) => r == Ok::<bool, BytesError>(self@.contains(x)),
                    None => r == Err::<bool, BytesError>(BytesError::ByteOutOfRange),
                },
            },
    {
        match needle {
            Needle::Bytes(n) => Ok(contains_bytes(self.elements.as_slice(), n.as_slice())),
            Needle::Int(v) => {
                if *v < 0 || *v > 255 {
                    return Err(BytesError::ByteOutOfRange);
                }
                let x = *v as u8;
                let mut i: usize = 0;
                while i < self.elements.len()
                    invariant
                        i <= self@.len(),
                        byte_of(*v) == Some(x),
                        *needle == Needle::Int(*v),
                        forall|j: int| 0 <= j < i ==> self@[j] != x,
                    decreases self@.len() - i,
                {
                    if self.elements[i] == x {
                        assert(self@[i as int] == x);
                        assert(self@.contains(x));
                        return Ok(true);
                    }
                    i += 1;
                }
                assert(!self@.contains(x));
                Ok(false)
            },
        }
    }

    /// The sequence protocol's containment: the operand is first resolved
    /// into a sub-sequence or an integer; anything else is a type error.
    pub fn seq_contains(&self, other: &Object) -> (r: Result<bool, BytesError>)
        ensures
            match other {
                Object::Bytes(n) | Object::MemoryView(n) => r == Ok::<bool, BytesError>(
                    contains_seq(self@, n@),
                ),
                Object::Int(v) => match byte_of(*v) {
                    Some(x) => r == Ok::<bool, BytesError>(self@.contains(x)),
                    None => r == Err::<bool, BytesError>(BytesError::ByteOutOfRange),
                },
                _ => r == Err::<bool, BytesError>(BytesError::UnsupportedOperand),
            },
    {
        match Needle::try_from_object(other) {
            Ok(n) => self.contains(&n),
            Err(e) => Err(e),
        }
    }

    /// The byte at index `i`, where a negative `i` counts from the end.
    pub fn getitem_index(&self, i: isize) -> (r: Result<u8, BytesError>)
        ensures
            ({
                let w = wrap_index(self@.len() as int, i as int);
                if 0 <= w < self@.len() {
                    r == Ok::<u8, BytesError>(self@[w])
                } else {
                    r == Err::<u8, BytesError>(BytesError::IndexOutOfRange)
                }
            }),
    {
        let len = self.elements.len();
        if i >= 0 {
            if (i as usize) < len {
                Ok(self.elements[i as usize])
            } else {
                Err(BytesError::IndexOutOfRange)
            }
        } else {
            let back: usize = if i == isize::MIN {
                (isize::MAX as usize) + 1
            } else {
                (-i) as usize
            };
            if back <= len {
                Ok(self.elements[len - back])
            } else {
                Err(BytesError::IndexOutOfRange)
            }
        }
    }

    /// The bytes that a slice selects, as a new base value; a zero step is
    /// a value error, and out-of-range bounds are clamped.
    pub fn getitem_slice(&self, a: &SliceArgs) -> (r: Result<PyBytes, BytesError>)
        requires
            self@.len() <= isize::MAX,
        ensures
            step_of(*a) == 0 ==> r == Err::<PyBytes, BytesError>(BytesError::ZeroStep),
            step_of(*a) != 0 ==> r is Ok && r->Ok_0@ == sliced(self@, *a) && r->Ok_0.class()
                == BytesType::Base,
    {
        let ghost len = self@.len() as int;
        let n: i128 = self.elements.len() as i128;
        let step: i128 = match a.step {
            Some(s) => s as i128,
            None => 1,
        };
        if step == 0 {
            return Err(BytesError::ZeroStep);
        }
        let start: i128 = match a.start {
            Some(v) => clamp_exec(n, v as i128, step > 0),
            None => if step > 0 { 0 } else { n - 1 },
        };
        let stop: i128 = match a.stop {
            Some(v) => clamp_exec(n, v as i128, step > 0),
            None => if step > 0 { n } else { -1 },
        };
        assert(start == slice_start(len, *a));
        assert(stop == slice_stop(len, *a));
        let count: i128 = if step > 0 {
            if start < stop { (stop - start - 1) / step + 1 } else { 0 }
        } else {
            if stop < start { (start - stop - 1) / (-step) + 1 } else { 0 }
        };
        assert(count == slice_len(len, *a));
        proof {
            if count > 0 {
                lemma_slice_visits(len, *a, 0);
                lemma_slice_visits(len, *a, count - 1);
            }
        }
        let mut v: Vec<u8> = Vec::new();
        let mut k: i128 = 0;
        let mut idx: i128 = start;
        while k < count
            invariant
                0 <= k <= count,
                count == slice_len(len, *a),
                step == step_of(*a),
                start == slice_start(len, *a),
                idx == slice_index(len, *a, k as int),
                len == self@.len(),
                len <= isize::MAX,
                step != 0,
                v@.len() == k,
                forall|j: int| 0 <= j < k ==> v@[j] == self@[slice_index(len, *a, j)],
            decreases count - k,
        {
            proof {
                lemma_slice_visits(len, *a, k as int);
            }
            v.push(self.elements[idx as usize]);
            proof {
                assert(slice_index(len, *a, k + 1) == idx + step) by (nonlinear_arith)
                    requires
                        idx == slice_start(len, *a) + k * step,
                        slice_index(len, *a, k + 1) == slice_start(len, *a) + (k + 1) * step,
                ;
            }
            k += 1;
            idx = idx + step;
        }
        assert(v@ == sliced(self@, *a));
        Ok(PyBytes::from(v))
    }

    /// The mapping protocol's subscript: an integer selects one byte, a
    /// slice a new value; any other operand is a type error.
    pub fn getitem(&self, needle: &Object) -> (r: Result<Item, BytesError>)
        requires
            self@.len() <= isize::MAX,
        ensures
            match needle {
                Object::Int(i) => {
                    let w = wrap_index(self@.len() as int, *i as int);
                    if 0 <= w < self@.len() {
                        r == Ok::<Item, BytesError>(Item::Int(self@[w]))
                    } else {
                        r == Err::<Item, BytesError>(BytesError::IndexOutOfRange)
                    }
                },
                Object::Slice(a) => if step_of(*a) == 0 {
                    r == Err::<Item, BytesError>(BytesError::ZeroStep)
                } else {
                    match r {
                        Ok(Item::Bytes(b)) => b@ == sliced(self@, *a),
                        _ => false,
                    }
                },
                _ => r == Err::<Item, BytesError>(BytesError::UnsupportedOperand),
            },
    {
        match needle {
            Object::Int(i) => {
                let len = self.elements.len();
                if *i >= 0 {
                    if (*i as u64) < (len as u64) {
                        Ok(Item::Int(self.elements[*i as usize]))
                    } else {
                        Err(BytesError::IndexOutOfRange)
                    }
                } else {
                    // -i fits in u64 even for i64::MIN once widened
                    let back: u64 = if *i == i64::MIN {
                        (i64::MAX as u64) + 1
                    } else {
                        (-*i) as u64
                    };
                    if back <= len as u64 {
                        Ok(Item::Int(self.elements[len - back as usize]))
                    } else {
                        Err(BytesError::IndexOutOfRange)
                    }
                }
            },
            Object::Slice(a) => match self.getitem_slice(a) {
                Ok(b) => Ok(Item::Bytes(b)),
                Err(e) => Err(e),
            },
            _ => Err(BytesError::UnsupportedOperand),
        }
    }

    /// The sequence protocol's item access: the byte at index `i` as a new
    /// value of length one.
    pub fn seq_item(&self, i: isize) -> (r: Result<PyBytes, BytesError>)
        ensures
            ({
                let w = wrap_index(self@.len() as int, i as int);
                if 0 <= w < self@.len() {
                    r is Ok && r->Ok_0@ == seq![self@[w]]
                } else {
                    r == Err::<PyBytes, BytesError>(BytesError::IndexOutOfRange)
                }
            }),
    {
        match self.getitem_index(i) {
            Ok(x) => Ok(PyBytes::from(vec![x])),
            Err(e) => Err(e),
        }
    }
}

/// A read-only export of a byte value's bytes to another value. It offers
/// no mutable access: the value it borrows from is immutable.
pub struct PyBuffer<'a> {
    pub bytes: &'a [u8],
    pub len: usize,
    pub readonly: bool,
}

impl PartialEq for PyBytes {
    /// Content equality: the runtime types need not agree.
    fn eq(&self, other: &PyBytes) -> (r: bool) {
        let c = compare_bytes(self.elements.as_slice(), other.elements.as_slice());
        proof {
            lemma_lex_cmp_zero(self@, other@);
        }
        c == 0
    }
}

impl vstd::std_specs::cmp::PartialEqSpecImpl for PyBytes {
    open spec fn obeys_eq_spec() -> bool {
        true
    }

    open spec fn eq_spec(&self, other: &PyBytes) -> bool {
        self@ == other@
    }
}

/// `b` repeated `n` times, in a fresh vector.
fn repeat_vec(b: &[u8], n: usize) -> (r: Vec<u8>)
    requires
        b@.len() * n <= usize::MAX,
    ensures
        r@ == repeat_seq(b@, n as int),
{
    let mut v: Vec<u8> = Vec::new();
    let mut k: usize = 0;
    while k < n
        invariant
            k <= n,
            b@.len() * n <= usize::MAX,
            v@ == repeat_seq(b@, k as int),
            v@.len() == b@.len() * k,
        decreases n - k,
    {
        let ghost before = v@;
        let mut i: usize = 0;
        proof {
            lemma_mul_inequality(k + 1, n as int, b@.len() as int);
            assert(b@.len() * (k + 1) == b@.len() * k + b@.len()) by (nonlinear_arith);
            assert((k + 1) * b@.len() == b@.len() * (k + 1)) by (nonlinear_arith);
        }
        while i < b.len()
            invariant
                i <= b@.len(),
                v@ == before + b@.subrange(0, i as int),
                before.len() + b@.len() <= usize::MAX,
            decreases b@.len() - i,
        {
            v.push(b[i]);
            i += 1;
            assert(b@.subrange(0, i as int) =~= b@.subrange(0, i - 1) + seq![b@[i - 1]]);
        }
        assert(b@.subrange(0, b@.len() as int) =~= b@);
        k += 1;
    }
    v
}

impl PyBytes {
    /// The sequence protocol's repetition: always a fresh base value.
    pub fn repeat(&self, n: usize) -> (r: PyBytes)
        requires
            self@.len() * n <= usize::MAX,
        ensures
            r@ == repeat_seq(self@, n as int),
            r.class() == BytesType::Base,
    {
        PyBytes::from(repeat_vec(self.elements.as_slice(), n))
    }

    /// Multiplication by an integer; a count below zero counts as zero.
    /// A value whose type is exactly the base type, multiplied by one, is
    /// returned itself, the same shared object; in every other case the
    /// result is a fresh base value. A result longer than `isize::MAX`
    /// bytes is an overflow error (a count of one never is: no value is
    /// that long).
    pub fn mul(zelf: Rc<PyBytes>, value: isize) -> (r: Result<Rc<PyBytes>, BytesError>)
        ensures
            value != 1 && value > 0 && zelf@.len() * value > isize::MAX ==> r == Err::<
                Rc<PyBytes>,
                BytesError,
            >(BytesError::Overflow),
            !(value != 1 && value > 0 && zelf@.len() * value > isize::MAX) ==> r is Ok && r->Ok_0@
                == repeat_seq(zelf@, value as int),
            value == 1 && zelf.class() == BytesType::Base ==> r == Ok::<Rc<PyBytes>, BytesError>(
                zelf,
            ),
            !(value == 1 && zelf.class() == BytesType::Base) ==> (r matches Ok(p)
                ==> p.class() == BytesType::Base),
    {
        proof {
            assert(repeat_seq(zelf@, 1) =~= zelf@) by {
                assert(repeat_seq(zelf@, 0) == Seq::<u8>::empty());
            }
        }
        if value == 1 && zelf.is_exact() {
            return Ok(zelf);
        }
        let n: usize = if value <= 0 { 0 } else { value as usize };
        let len = zelf.elements.len();
        if n > 1 && len > (isize::MAX as usize) / n {
            proof {
                lemma_steps_within(len as int, isize::MAX as int, n as int);
            }
            return Err(BytesError::Overflow);
        }
        proof {
            if n > 1 {
                lemma_steps_within(len as int, isize::MAX as int, n as int);
            }
            if value <= 0 {
                assert(repeat_seq(zelf@, value as int) == Seq::<u8>::empty());
            }
        }
        Ok(Rc::new(zelf.repeat(n)))
    }

    /// The byte-value conversion: a value of exactly the base type is
    /// returned itself; a value of a derived type gives a fresh base copy.
    pub fn bytes(zelf: Rc<PyBytes>) -> (r: Rc<PyBytes>)
        ensures
            r@ == zelf@,
            r.class() == BytesType::Base,
            zelf.class() == BytesType::Base ==> r == zelf,
    {
        if zelf.is_exact() {
            zelf
        } else {
            Rc::new(PyBytes::from(copy_bytes(zelf.elements.as_slice())))
        }
    }

    /// The memory footprint: the header plus one unit per byte.
    pub fn sizeof(&self) -> (r: usize)
        requires
            vstd::layout::size_of::<PyBytes>() + self@.len() <= usize::MAX,
        ensures
            r == vstd::layout::size_of::<PyBytes>() + self@.len(),
    {
        core::mem::size_of::<PyBytes>() + self.elements.len()
    }

    /// The reverse formatting operator is not implemented for this type:
    /// the result is always `None`, whatever the operand.
    pub fn rmod(&self, _values: &Object) -> (r: Option<PyBytes>)
        ensures
            r is None,
    {
        None
    }

    /// The constructor arguments that rebuild an equal value: its bytes,
    /// as integers.
    pub fn getnewargs(&self) -> (r: Vec<u8>)
        ensures
            r@ == self@,
    {
        copy_bytes(self.elements.as_slice())
    }

    /// The reduction triple without the attribute dictionary: the runtime
    /// type of `self` and, as the one constructor argument, a fresh base
    /// value with the same bytes.
    pub fn reduce(&self) -> (r: (BytesType, PyBytes))
        ensures
            r.0 == self.class(),
            r.1@ == self@,
            r.1.class() == BytesType::Base,
    {
        (self.class, PyBytes::from(copy_bytes(self.elements.as_slice())))
    }

    /// As `reduce`, whatever the protocol version.
    pub fn reduce_ex(&self, proto: usize) -> (r: (BytesType, PyBytes))
        ensures
            r.0 == self.class(),
            r.1@ == self@,
            r.1.class() == BytesType::Base,
    {
        self.reduce()
    }

    /// A read-only buffer over this value's bytes, without a copy.
    pub fn as_buffer(&self) -> (r: PyBuffer<'_>)
        ensures
            r.bytes@ == self@,
            r.len == self@.len(),
            r.readonly,
    {
        PyBuffer { bytes: self.elements.as_slice(), len: self.elements.len(), readonly: true }
    }
}

fn clamp_exec(len: i128, v: i128, forward: bool) -> (r: i128)
    requires
        0 <= len <= isize::MAX,
        isize::MIN <= v <= isize::MAX,
    ensures
        r == crate::slice::clamp_bound(len as int, v as int, forward),
{
    if v < 0 {
        if v + len < 0 {
            if forward { 0 } else { -1 }
        } else {
            v + len
        }
    } else if v >= len {
        if forward { len } else { len - 1 }
    } else {
        v
    }
}

} // verus!
