use pybytes::bytes::{Item, PyBytes};
use pybytes::compare::compare_bytes;
use pybytes::iter::IterReduction;
use pybytes::object::{Affix, BytesError, BytesType, CompareOp, Comparison, Needle, Object, SliceArgs};
use std::rc::Rc;

fn b(v: &[u8]) -> PyBytes {
    PyBytes::from(v.to_vec())
}

fn sl(start: Option<isize>, stop: Option<isize>, step: Option<isize>) -> SliceArgs {
    SliceArgs { start, stop, step }
}

#[test]
fn hash_is_repeatable_and_by_content() {
    let data = vec![1u8, 2, 3, 250];
    let x = PyBytes::from(data.clone());
    let y = PyBytes::py_new(BytesType::Derived(7), data.clone());
    assert_eq!(x.hash(), x.hash());
    assert_eq!(x.hash(), PyBytes::from(data).hash());
    assert_eq!(x.hash(), y.hash());
    assert_ne!(b(&[1, 2, 3]).hash(), b(&[3, 2, 1]).hash());
}

#[test]
fn equality_is_by_content() {
    let data = vec![9u8, 8, 7];
    let x = PyBytes::from(data.clone());
    let y = PyBytes::from(data.clone());
    assert!(x == y);
    assert!(x == PyBytes::py_new(BytesType::Derived(3), data));
    assert!(x != b(&[9, 8]));
    assert!(b(&[]) == b(&[]));
}

#[test]
fn multiply_by_one_keeps_identity_of_exact_type() {
    let x = PyBytes::new_ref(vec![1, 2]);
    let y = PyBytes::mul(Rc::clone(&x), 1).unwrap();
    assert!(Rc::ptr_eq(&x, &y));
}

#[test]
fn multiply_by_one_copies_derived_type() {
    let x = Rc::new(PyBytes::py_new(BytesType::Derived(5), vec![1, 2]));
    let y = PyBytes::mul(Rc::clone(&x), 1).unwrap();
    assert!(!Rc::ptr_eq(&x, &y));
    assert!(*x == *y);
    assert_eq!(y.get_class(), BytesType::Base);
    assert_eq!(x.get_class(), BytesType::Derived(5));
}

#[test]
fn multiply_repeats_and_clamps_negative() {
    let x = PyBytes::new_ref(vec![1, 2]);
    let y = PyBytes::mul(Rc::clone(&x), 3).unwrap();
    assert_eq!(y.as_bytes(), &[1, 2, 1, 2, 1, 2]);
    assert!(!Rc::ptr_eq(&x, &y));
    let z = PyBytes::mul(Rc::clone(&x), -4).unwrap();
    assert!(z.is_empty());
    let w = PyBytes::mul(Rc::clone(&x), 0).unwrap();
    assert_eq!(w.len(), 0);
}

#[test]
fn multiply_overflow_is_an_error() {
    let x = PyBytes::new_ref(vec![1, 2]);
    assert_eq!(PyBytes::mul(x, isize::MAX).unwrap_err(), BytesError::Overflow);
}

#[test]
fn sequence_repeat_never_keeps_identity() {
    let x = b(&[4, 5]);
    assert_eq!(x.repeat(1).as_bytes(), &[4, 5]);
    assert_eq!(x.repeat(2).as_bytes(), &[4, 5, 4, 5]);
    assert!(x.repeat(0).is_empty());
}

fn visited(len: isize, start: isize, stop: isize, step: isize) -> Vec<isize> {
    let mut out = Vec::new();
    let mut i = start;
    while (step > 0 && i < stop) || (step < 0 && i > stop) {
        if i >= 0 && i < len {
            out.push(i);
        }
        i += step;
    }
    out
}

#[test]
fn slice_round_trip() {
    let data: Vec<u8> = (0u8..10).map(|x| x * 3).collect();
    let x = PyBytes::from(data.clone());
    let cases = [(0, 10, 1), (1, 9, 2), (9, -1, -1), (9, -11, -1), (8, 0, -3), (2, 2, 1), (7, 3, 1), (0, 10, 4)];
    for (start, stop, step) in cases {
        let s = x.getitem_slice(&sl(Some(start), Some(stop), Some(step))).unwrap();
        // a negative stop counts from the end, as the slice does
        let real_stop = if stop < 0 { stop + 10 } else { stop };
        let idx = visited(10, start, real_stop, step);
        let expected: Vec<u8> = idx.iter().map(|&i| x.getitem_index(i).unwrap()).collect();
        assert_eq!(s.as_bytes(), &expected[..]);
        assert_eq!(s.len(), idx.len());
    }
}

#[test]
fn slice_defaults_and_clamping() {
    let x = b(&[10, 20, 30, 40, 50]);
    assert_eq!(x.getitem_slice(&sl(None, None, None)).unwrap().as_bytes(), &[10, 20, 30, 40, 50]);
    assert_eq!(x.getitem_slice(&sl(None, None, Some(-1))).unwrap().as_bytes(), &[50, 40, 30, 20, 10]);
    assert_eq!(x.getitem_slice(&sl(Some(-100), Some(100), None)).unwrap().as_bytes(), &[10, 20, 30, 40, 50]);
    assert_eq!(x.getitem_slice(&sl(Some(-2), None, None)).unwrap().as_bytes(), &[40, 50]);
    assert_eq!(x.getitem_slice(&sl(Some(100), None, Some(-2))).unwrap().as_bytes(), &[50, 30, 10]);
    assert!(x.getitem_slice(&sl(Some(3), Some(1), None)).unwrap().is_empty());
    assert!(b(&[]).getitem_slice(&sl(None, None, Some(-1))).unwrap().is_empty());
}

#[test]
fn slice_zero_step_is_an_error() {
    let x = b(&[1, 2, 3]);
    assert_eq!(x.getitem_slice(&sl(None, None, Some(0))).unwrap_err(), BytesError::ZeroStep);
}

#[test]
fn index_wraparound() {
    let x = b(&[10, 20, 30]);
    assert_eq!(x.getitem_index(-1), Ok(30));
    assert_eq!(x.getitem_index(-3), Ok(10));
    assert_eq!(x.getitem_index(0), Ok(10));
    assert_eq!(x.getitem_index(3), Err(BytesError::IndexOutOfRange));
    assert_eq!(x.getitem_index(-4), Err(BytesError::IndexOutOfRange));
    assert_eq!(x.getitem_index(isize::MIN), Err(BytesError::IndexOutOfRange));
}

#[test]
fn subscript_by_int_slice_and_other() {
    let x = b(&[10, 20, 30]);
    match x.getitem(&Object::Int(-1)).unwrap() {
        Item::Int(v) => assert_eq!(v, 30),
        Item::Bytes(_) => panic!("expected an integer"),
    }
    assert_eq!(x.getitem(&Object::Int(3)).unwrap_err(), BytesError::IndexOutOfRange);
    assert_eq!(x.getitem(&Object::Int(i64::MIN)).unwrap_err(), BytesError::IndexOutOfRange);
    match x.getitem(&Object::Slice(sl(Some(1), None, None))).unwrap() {
        Item::Bytes(s) => assert_eq!(s.as_bytes(), &[20, 30]),
        Item::Int(_) => panic!("expected bytes"),
    }
    assert_eq!(x.getitem(&Object::Str("a".to_string())).unwrap_err(), BytesError::UnsupportedOperand);
}

#[test]
fn sequence_item_is_a_byte_value() {
    let x = b(&[10, 20, 30]);
    assert_eq!(x.seq_item(-1).unwrap().as_bytes(), &[30]);
    assert_eq!(x.seq_item(1).unwrap().as_bytes(), &[20]);
    assert_eq!(x.seq_item(5).unwrap_err(), BytesError::IndexOutOfRange);
}

#[test]
fn iterator_over_empty_is_exhausted_at_once() {
    let mut it = PyBytes::iter(PyBytes::new_ref(vec![]));
    assert_eq!(it.length_hint(), 0);
    assert_eq!(it.next(), None);
    assert_eq!(it.length_hint(), 0);
    assert_eq!(it.next(), None);
    assert!(matches!(it.reduce(), IterReduction::Exhausted));
}

#[test]
fn iterator_yields_every_byte() {
    let mut it = PyBytes::iter(PyBytes::new_ref(vec![7, 8, 9]));
    assert_eq!(it.length_hint(), 3);
    assert_eq!(it.next(), Some(7));
    assert_eq!(it.length_hint(), 2);
    assert_eq!(it.next(), Some(8));
    assert_eq!(it.next(), Some(9));
    assert_eq!(it.next(), None);
    assert_eq!(it.length_hint(), 0);
    it.setstate(0);
    assert_eq!(it.next(), None);
}

#[test]
fn iterator_state_round_trip() {
    let src = PyBytes::new_ref(vec![1, 2, 3]);
    let mut it = PyBytes::iter(Rc::clone(&src));
    assert_eq!(it.next(), Some(1));
    let (saved_src, pos) = match it.reduce() {
        IterReduction::Active(s, p) => (s, p),
        IterReduction::Exhausted => panic!("iterator should be active"),
    };
    assert!(Rc::ptr_eq(&saved_src, &src));
    assert_eq!(pos, 1);
    let mut fresh = PyBytes::iter(saved_src);
    fresh.setstate(pos as isize);
    let mut rest = Vec::new();
    while let Some(x) = fresh.next() {
        rest.push(x);
    }
    assert_eq!(rest, vec![2, 3]);
}

#[test]
fn iterator_setstate_clamps() {
    let mut it = PyBytes::iter(PyBytes::new_ref(vec![1, 2, 3]));
    it.setstate(-5);
    assert_eq!(it.length_hint(), 3);
    it.setstate(99);
    assert_eq!(it.length_hint(), 0);
    assert_eq!(it.next(), None);
    it.setstate(2);
    assert_eq!(it.next(), None);
}

#[test]
fn ordering_against_buffer_view_is_a_type_error() {
    let x = b(&[1, 2]);
    let view = Object::MemoryView(vec![1, 2]);
    assert_eq!(x.cmp(&view, CompareOp::Lt, false), Err(BytesError::OrderingWithView));
    assert_eq!(x.cmp(&view, CompareOp::Ge, false), Err(BytesError::OrderingWithView));
    assert_eq!(x.cmp(&view, CompareOp::Eq, false), Ok(Comparison::Bool(true)));
    assert_eq!(x.cmp(&view, CompareOp::Ne, false), Ok(Comparison::Bool(false)));
    assert_eq!(x.cmp(&Object::MemoryView(vec![1, 3]), CompareOp::Eq, false), Ok(Comparison::Bool(false)));
}

#[test]
fn comparison_is_lexicographic() {
    let x = b(&[1, 2]);
    assert_eq!(x.cmp(&Object::Bytes(vec![1, 2, 0]), CompareOp::Lt, false), Ok(Comparison::Bool(true)));
    assert_eq!(x.cmp(&Object::Bytes(vec![1, 1, 9]), CompareOp::Gt, false), Ok(Comparison::Bool(true)));
    assert_eq!(x.cmp(&Object::Bytes(vec![1, 2]), CompareOp::Le, false), Ok(Comparison::Bool(true)));
    assert_eq!(x.cmp(&Object::Bytes(vec![]), CompareOp::Lt, false), Ok(Comparison::Bool(false)));
    assert_eq!(x.cmp(&Object::Int(3), CompareOp::Eq, false), Ok(Comparison::NotImplemented));
    assert_eq!(x.cmp(&Object::Str("ab".to_string()), CompareOp::Lt, false), Ok(Comparison::NotImplemented));
    assert_eq!(compare_bytes(&[2], &[1, 9]), 1);
    assert_eq!(compare_bytes(&[], &[]), 0);
}

#[test]
fn identical_operands_compare_by_reflexivity() {
    let x = b(&[5, 6]);
    let same = Object::Bytes(vec![5, 6]);
    assert_eq!(x.cmp(&same, CompareOp::Eq, true), Ok(Comparison::Bool(true)));
    assert_eq!(x.cmp(&same, CompareOp::Le, true), Ok(Comparison::Bool(true)));
    assert_eq!(x.cmp(&same, CompareOp::Lt, true), Ok(Comparison::Bool(false)));
    assert_eq!(x.cmp(&same, CompareOp::Ne, true), Ok(Comparison::Bool(false)));
}

#[test]
fn concatenation_leaves_operands_unchanged() {
    let x = b(&[1, 2]);
    let y = b(&[3, 4]);
    let z = x.add(y.as_bytes());
    assert!(z == b(&[1, 2, 3, 4]));
    assert_eq!(x.as_bytes(), &[1, 2]);
    assert_eq!(y.as_bytes(), &[3, 4]);
    assert_eq!(x.concat(&Object::MemoryView(vec![9])).unwrap().as_bytes(), &[1, 2, 9]);
    assert_eq!(x.concat(&Object::Int(1)).unwrap_err(), BytesError::UnsupportedOperand);
}

#[test]
fn containment() {
    let x = b(&[1, 2, 3]);
    assert_eq!(x.contains(&Needle::Bytes(vec![2, 3])), Ok(true));
    assert_eq!(x.contains(&Needle::Bytes(vec![3, 2])), Ok(false));
    assert_eq!(x.contains(&Needle::Bytes(vec![])), Ok(true));
    assert_eq!(x.contains(&Needle::Int(5)), Ok(false));
    assert_eq!(x.contains(&Needle::Int(2)), Ok(true));
    assert_eq!(x.contains(&Needle::Int(256)), Err(BytesError::ByteOutOfRange));
    assert_eq!(x.seq_contains(&Object::Str("x".to_string())), Err(BytesError::UnsupportedOperand));
    assert_eq!(x.seq_contains(&Object::Bytes(vec![1, 2])), Ok(true));
    assert_eq!(x.seq_contains(&Object::Int(3)), Ok(true));
    assert_eq!(x.seq_contains(&Object::Int(-1)), Err(BytesError::ByteOutOfRange));
}

#[test]
fn find_and_index_from_both_ends() {
    let x = b(b"abcabc");
    assert_eq!(x.find(&Needle::Bytes(b"bc".to_vec()), None, None), Ok(1));
    assert_eq!(x.rfind(&Needle::Bytes(b"bc".to_vec()), None, None), Ok(4));
    assert_eq!(x.find(&Needle::Bytes(b"bc".to_vec()), Some(2), None), Ok(4));
    assert_eq!(x.find(&Needle::Bytes(b"bc".to_vec()), Some(2), Some(5)), Ok(-1));
    assert_eq!(x.find(&Needle::Int(b'c' as i64), Some(-3), None), Ok(5));
    assert_eq!(x.find(&Needle::Bytes(vec![]), Some(7), None), Ok(-1));
    assert_eq!(x.find(&Needle::Bytes(vec![]), Some(6), None), Ok(6));
    assert_eq!(x.rfind(&Needle::Bytes(vec![]), None, None), Ok(6));
    assert_eq!(x.find(&Needle::Int(300), None, None), Err(BytesError::ByteOutOfRange));
    assert_eq!(x.index(&Needle::Bytes(b"ca".to_vec()), None, None), Ok(2));
    assert_eq!(x.rindex(&Needle::Bytes(b"a".to_vec()), None, None), Ok(3));
    assert_eq!(x.index(&Needle::Bytes(b"zz".to_vec()), None, None), Err(BytesError::SubstringNotFound));
    assert_eq!(x.rindex(&Needle::Bytes(b"zz".to_vec()), None, None), Err(BytesError::SubstringNotFound));
}

#[test]
fn prefix_and_suffix_tests() {
    let x = b(b"hello world");
    let one = |s: &[u8]| Affix::One(Object::Bytes(s.to_vec()));
    assert_eq!(x.startswith(&one(b"hello"), None, None), Ok(true));
    assert_eq!(x.startswith(&one(b"world"), None, None), Ok(false));
    assert_eq!(x.startswith(&one(b"world"), Some(6), None), Ok(true));
    assert_eq!(x.endswith(&one(b"world"), None, None), Ok(true));
    assert_eq!(x.endswith(&one(b"hello"), None, Some(5)), Ok(true));
    assert_eq!(x.endswith(&one(b""), Some(12), None), Ok(false));
    assert_eq!(x.startswith(&Affix::One(Object::Int(1)), None, None), Err(BytesError::UnsupportedOperand));
    let many = Affix::Many(vec![Object::Bytes(b"xy".to_vec()), Object::MemoryView(b"he".to_vec()), Object::Int(0)]);
    assert_eq!(x.startswith(&many, None, None), Ok(true));
    let bad = Affix::Many(vec![Object::Bytes(b"xy".to_vec()), Object::Int(0)]);
    assert_eq!(x.startswith(&bad, None, None), Err(BytesError::UnsupportedOperand));
    assert_eq!(x.endswith(&Affix::Many(vec![]), None, None), Ok(false));
}

#[test]
fn partition_around_separator() {
    let x = b(b"a,b,c");
    let (a, m, c) = x.partition(&Object::Bytes(b",".to_vec())).unwrap();
    assert_eq!((a.as_bytes(), m.as_bytes(), c.as_bytes()), (&b"a"[..], &b","[..], &b"b,c"[..]));
    let (a, m, c) = x.rpartition(&Object::Bytes(b",".to_vec())).unwrap();
    assert_eq!((a.as_bytes(), m.as_bytes(), c.as_bytes()), (&b"a,b"[..], &b","[..], &b"c"[..]));
    let (a, m, c) = x.partition(&Object::Bytes(b";".to_vec())).unwrap();
    assert_eq!((a.as_bytes(), m.len(), c.len()), (&b"a,b,c"[..], 0, 0));
    let (a, m, c) = x.rpartition(&Object::Bytes(b";".to_vec())).unwrap();
    assert_eq!((a.len(), m.len(), c.as_bytes()), (0, 0, &b"a,b,c"[..]));
    assert_eq!(x.partition(&Object::Bytes(vec![])).unwrap_err(), BytesError::EmptySeparator);
    assert_eq!(x.rpartition(&Object::Int(1)).unwrap_err(), BytesError::UnsupportedOperand);
}

#[test]
fn prefix_and_suffix_removal() {
    let x = b(b"prefix-body-suffix");
    assert_eq!(x.removeprefix(b"prefix-").as_bytes(), b"body-suffix");
    assert_eq!(x.removeprefix(b"body").as_bytes(), b"prefix-body-suffix");
    assert_eq!(x.removesuffix(b"-suffix").as_bytes(), b"prefix-body");
    assert_eq!(x.removesuffix(b"x-").as_bytes(), b"prefix-body-suffix");
}

#[test]
fn ascii_predicates() {
    assert!(b(b"abc123").isalnum());
    assert!(!b(b"abc 123").isalnum());
    assert!(!b(b"").isalnum());
    assert!(b(b"abcXYZ").isalpha());
    assert!(!b(b"abc1").isalpha());
    assert!(b(b"").isascii());
    assert!(!b(&[0x80]).isascii());
    assert!(b(b"0123").isdigit());
    assert!(!b(b"").isdigit());
    assert!(b(b" \t\n\r\x0b\x0c").isspace());
    assert!(!b(b" a").isspace());
    assert!(b(b"abc1").islower());
    assert!(!b(b"aBc").islower());
    assert!(!b(b"123").islower());
    assert!(b(b"ABC1").isupper());
    assert!(!b(b"123").isupper());
}

#[test]
fn case_mapping() {
    let x = b(b"hELLo, World\xff");
    assert_eq!(x.lower().as_bytes(), b"hello, world\xff");
    assert_eq!(x.upper().as_bytes(), b"HELLO, WORLD\xff");
    assert_eq!(x.swapcase().as_bytes(), b"HellO, wORLD\xff");
    assert_eq!(x.capitalize().as_bytes(), b"Hello, world\xff");
    assert!(b(b"").capitalize().is_empty());
    assert_eq!(x.as_bytes(), b"hELLo, World\xff");
}

#[test]
fn reduction_and_new_args() {
    let x = PyBytes::py_new(BytesType::Derived(11), vec![1, 2, 3]);
    let (cls, arg) = x.reduce();
    assert_eq!(cls, BytesType::Derived(11));
    assert_eq!(arg.as_bytes(), &[1, 2, 3]);
    assert_eq!(arg.get_class(), BytesType::Base);
    let (cls, arg) = x.reduce_ex(4);
    assert_eq!(cls, BytesType::Derived(11));
    assert!(arg == x);
    assert_eq!(x.getnewargs(), vec![1, 2, 3]);
}

#[test]
fn bytes_conversion_and_buffer() {
    let x = PyBytes::new_ref(vec![4, 5]);
    let y = PyBytes::bytes(Rc::clone(&x));
    assert!(Rc::ptr_eq(&x, &y));
    let d = Rc::new(PyBytes::py_new(BytesType::Derived(2), vec![4, 5]));
    let e = PyBytes::bytes(Rc::clone(&d));
    assert!(!Rc::ptr_eq(&d, &e));
    assert_eq!(e.get_class(), BytesType::Base);
    let buf = x.as_buffer();
    assert_eq!(buf.bytes, &[4, 5]);
    assert_eq!(buf.len, 2);
    assert!(buf.readonly);
    assert!(x.rmod(&Object::Other).is_none());
    assert!(x.sizeof() >= 2 + std::mem::size_of::<Vec<u8>>());
    assert!(x.is_exact());
    assert!(!d.is_exact());
}
