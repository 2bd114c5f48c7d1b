use pybytes::bytes::PyBytes;
use pybytes::object::{BytesError, BytesType, Needle, Object};

fn b(v: &[u8]) -> PyBytes {
    PyBytes::from(v.to_vec())
}

#[test]
fn repr_escapes_and_quotes() {
    assert_eq!(b(b"abc").repr(), "b'abc'");
    assert_eq!(b(b"").repr(), "b''");
    assert_eq!(b(b"it's").repr(), "b\"it's\"");
    assert_eq!(b(b"'\"").repr(), "b'\\'\"'");
    assert_eq!(b(b"a\\b").repr(), "b'a\\\\b'");
    assert_eq!(b(b"\t\n\r\x00\x7f\xff").repr(), "b'\\t\\n\\r\\x00\\x7f\\xff'");
}

#[test]
fn strip_from_both_ends() {
    let x = b(b"  \t hi there \n ");
    assert_eq!(x.strip(None).as_bytes(), b"hi there");
    assert_eq!(x.lstrip(None).as_bytes(), b"hi there \n ");
    assert_eq!(x.rstrip(None).as_bytes(), b"  \t hi there");
    let y = b(b"xxyhixy");
    assert_eq!(y.strip(Some(b"xy")).as_bytes(), b"hi");
    assert_eq!(y.lstrip(Some(b"x")).as_bytes(), b"yhixy");
    assert_eq!(y.rstrip(Some(b"y")).as_bytes(), b"xxyhix");
    assert!(b(b"   ").strip(None).is_empty());
    assert_eq!(y.strip(Some(b"")).as_bytes(), b"xxyhixy");
}

#[test]
fn padding_to_a_width() {
    let x = b(b"ab");
    assert_eq!(x.ljust(5, b'*').as_bytes(), b"ab***");
    assert_eq!(x.rjust(5, b'*').as_bytes(), b"***ab");
    assert_eq!(x.center(5, b'*').as_bytes(), b"**ab*");
    assert_eq!(b(b"abc").center(6, b'-').as_bytes(), b"-abc--");
    assert_eq!(b(b"a").center(4, b'-').as_bytes(), b"-a--");
    assert_eq!(x.ljust(1, b'*').as_bytes(), b"ab");
    assert_eq!(x.center(-3, b'*').as_bytes(), b"ab");
}

#[test]
fn zero_fill_keeps_the_sign() {
    assert_eq!(b(b"42").zfill(5).as_bytes(), b"00042");
    assert_eq!(b(b"-42").zfill(5).as_bytes(), b"-0042");
    assert_eq!(b(b"+4").zfill(3).as_bytes(), b"+04");
    assert_eq!(b(b"").zfill(2).as_bytes(), b"00");
    assert_eq!(b(b"-42").zfill(2).as_bytes(), b"-42");
}

#[test]
fn fromhex_reads_pairs_and_skips_space() {
    let x = PyBytes::fromhex(BytesType::Base, b"de ad BE\tef").unwrap();
    assert_eq!(x.as_bytes(), &[0xde, 0xad, 0xbe, 0xef]);
    let y = PyBytes::fromhex(BytesType::Derived(4), b"").unwrap();
    assert!(y.is_empty());
    assert_eq!(y.get_class(), BytesType::Derived(4));
    assert_eq!(PyBytes::fromhex(BytesType::Base, b"0g").unwrap_err(), (BytesError::InvalidHex, 1));
    assert_eq!(PyBytes::fromhex(BytesType::Base, b"01 2").unwrap_err(), (BytesError::InvalidHex, 4));
    assert_eq!(PyBytes::fromhex(BytesType::Base, b"0 1").unwrap_err(), (BytesError::InvalidHex, 1));
    assert_eq!(PyBytes::fromhex(BytesType::Base, b"zz").unwrap_err(), (BytesError::InvalidHex, 0));
}

#[test]
fn join_with_separator() {
    let sep = b(b", ");
    let items = vec![Object::Bytes(b"a".to_vec()), Object::MemoryView(b"bc".to_vec()), Object::Bytes(vec![])];
    assert_eq!(sep.join(&items).unwrap().as_bytes(), b"a, bc, ");
    assert!(sep.join(&vec![]).unwrap().is_empty());
    assert_eq!(sep.join(&vec![Object::Bytes(b"x".to_vec())]).unwrap().as_bytes(), b"x");
    let bad = vec![Object::Bytes(b"a".to_vec()), Object::Int(1)];
    assert_eq!(sep.join(&bad).unwrap_err(), BytesError::UnsupportedOperand);
}

#[test]
fn count_without_overlap() {
    use_count();
}

fn use_count() {
    use_needles(b"aaaa", b"aa", 2);
    use_needles(b"abcabc", b"bc", 2);
    use_needles(b"abc", b"", 4);
    use_needles(b"abc", b"x", 0);
    let x = b(b"abcabc");
    assert_eq!(x.count(&Needle::Int(b'a' as i64), Some(1), None), Ok(1));
    assert_eq!(x.count(&Needle::Bytes(vec![]), Some(7), None), Ok(0));
    assert_eq!(x.count(&Needle::Bytes(vec![]), Some(2), Some(4)), Ok(3));
    assert_eq!(x.count(&Needle::Int(-1), None, None), Err(BytesError::ByteOutOfRange));
}

fn use_needles(h: &[u8], n: &[u8], expected: usize) {
    assert_eq!(b(h).count(&Needle::Bytes(n.to_vec()), None, None), Ok(expected));
}

#[test]
fn translate_through_a_table() {
    let t = PyBytes::maketrans(b"abc", b"xyz").unwrap();
    assert_eq!(t.len(), 256);
    assert_eq!(t[b'a' as usize], b'x');
    assert_eq!(t[b'd' as usize], b'd');
    assert_eq!(PyBytes::maketrans(b"ab", b"x").unwrap_err(), BytesError::UnequalLengths);
    let x = b(b"aabbccdd");
    assert_eq!(x.translate(Some(&t), b"").unwrap().as_bytes(), b"xxyyzzdd");
    assert_eq!(x.translate(Some(&t), b"b").unwrap().as_bytes(), b"xxzzdd");
    assert_eq!(x.translate(None, b"ad").unwrap().as_bytes(), b"bbcc");
    assert_eq!(x.translate(Some(&[0u8; 10]), b"").unwrap_err(), BytesError::BadTableLength);
    let twice = PyBytes::maketrans(b"aa", b"xy").unwrap();
    assert_eq!(twice[b'a' as usize], b'y');
}

#[test]
fn title_case() {
    assert_eq!(b(b"hello wORLD 3rd").title().as_bytes(), b"Hello World 3Rd");
    assert!(b(b"Hello World").istitle());
    assert!(!b(b"Hello world").istitle());
    assert!(!b(b"HEllo").istitle());
    assert!(!b(b"123").istitle());
    assert!(b(b"A1 B").istitle());
    assert!(!b(b"").istitle());
}

#[test]
fn hex_with_separators() {
    let x = b(&[0x01, 0x02, 0x03, 0xab]);
    assert_eq!(x.hex(None, 1).unwrap(), "010203ab");
    assert_eq!(x.hex(Some(b':'), 1).unwrap(), "01:02:03:ab");
    assert_eq!(x.hex(Some(b':'), 3).unwrap(), "01:0203ab");
    assert_eq!(x.hex(Some(b':'), -3).unwrap(), "010203:ab");
    assert_eq!(x.hex(Some(b'-'), 0).unwrap(), "010203ab");
    assert_eq!(b(b"").hex(Some(b':'), 2).unwrap(), "");
    assert_eq!(x.hex(Some(0xff), 1).unwrap_err(), BytesError::NonAsciiSeparator);
}

fn pieces(v: Vec<PyBytes>) -> Vec<Vec<u8>> {
    v.iter().map(|p| p.as_bytes().to_vec()).collect()
}

#[test]
fn split_from_the_left() {
    let x = b(b"a,b,,c");
    assert_eq!(pieces(x.split(Some(b","), -1).unwrap()), vec![b"a".to_vec(), b"b".to_vec(), vec![], b"c".to_vec()]);
    assert_eq!(pieces(x.split(Some(b","), 1).unwrap()), vec![b"a".to_vec(), b"b,,c".to_vec()]);
    assert_eq!(pieces(x.split(Some(b","), 0).unwrap()), vec![b"a,b,,c".to_vec()]);
    assert_eq!(pieces(b(b"").split(Some(b","), -1).unwrap()), vec![Vec::<u8>::new()]);
    assert_eq!(pieces(b(b"aXYbXY").split(Some(b"XY"), -1).unwrap()), vec![b"a".to_vec(), b"b".to_vec(), vec![]]);
    assert_eq!(x.split(Some(b""), -1).unwrap_err(), BytesError::EmptySeparator);
}

#[test]
fn split_from_the_right() {
    let x = b(b"a,b,,c");
    assert_eq!(pieces(x.rsplit(Some(b","), -1).unwrap()), vec![b"a".to_vec(), b"b".to_vec(), vec![], b"c".to_vec()]);
    assert_eq!(pieces(x.rsplit(Some(b","), 1).unwrap()), vec![b"a,b,".to_vec(), b"c".to_vec()]);
    assert_eq!(pieces(x.rsplit(Some(b","), 2).unwrap()), vec![b"a,b".to_vec(), vec![], b"c".to_vec()]);
    assert_eq!(pieces(b(b"aaa").rsplit(Some(b"aa"), -1).unwrap()), vec![b"a".to_vec(), vec![]]);
    assert_eq!(pieces(b(b"aaa").split(Some(b"aa"), -1).unwrap()), vec![vec![], b"a".to_vec()]);
    assert_eq!(x.rsplit(Some(b""), 3).unwrap_err(), BytesError::EmptySeparator);
}

#[test]
fn replace_occurrences() {
    let x = b(b"one two one two");
    assert_eq!(x.replace(b"one", b"1", -1).unwrap().as_bytes(), b"1 two 1 two");
    assert_eq!(x.replace(b"one", b"1", 1).unwrap().as_bytes(), b"1 two one two");
    assert_eq!(x.replace(b"one", b"1", 0).unwrap().as_bytes(), b"one two one two");
    assert_eq!(x.replace(b"zzz", b"1", -1).unwrap().as_bytes(), b"one two one two");
    assert_eq!(b(b"aaa").replace(b"aa", b"b", -1).unwrap().as_bytes(), b"ba");
    assert_eq!(b(b"abc").replace(b"", b"-", -1).unwrap().as_bytes(), b"-a-b-c-");
    assert_eq!(b(b"abc").replace(b"", b"-", 2).unwrap().as_bytes(), b"-a-bc");
    assert_eq!(b(b"").replace(b"", b"-", -1).unwrap().as_bytes(), b"-");
    assert_eq!(b(b"abc").replace(b"b", b"", -1).unwrap().as_bytes(), b"ac");
}

#[test]
fn expand_tabs_to_columns() {
    assert_eq!(b(b"a\tb").expandtabs(4).unwrap().as_bytes(), b"a   b");
    assert_eq!(b(b"abcd\te").expandtabs(4).unwrap().as_bytes(), b"abcd    e");
    assert_eq!(b(b"ab\ncd\te").expandtabs(4).unwrap().as_bytes(), b"ab\ncd  e");
    assert_eq!(b(b"\t").expandtabs(0).unwrap().as_bytes(), b"");
    assert_eq!(b(b"x\ty").expandtabs(-3).unwrap().as_bytes(), b"xy");
    assert_eq!(b(b"\t\t").expandtabs(2).unwrap().as_bytes(), b"    ");
}

#[test]
fn split_into_lines() {
    let x = b(b"one\ntwo\r\nthree\rfour");
    assert_eq!(pieces(x.splitlines(false)), vec![b"one".to_vec(), b"two".to_vec(), b"three".to_vec(), b"four".to_vec()]);
    assert_eq!(pieces(x.splitlines(true)), vec![b"one\n".to_vec(), b"two\r\n".to_vec(), b"three\r".to_vec(), b"four".to_vec()]);
    assert!(b(b"").splitlines(false).is_empty());
    assert_eq!(pieces(b(b"a\n\nb\n").splitlines(false)), vec![b"a".to_vec(), vec![], b"b".to_vec()]);
    assert_eq!(pieces(b(b"\r\r\n").splitlines(true)), vec![b"\r".to_vec(), b"\r\n".to_vec()]);
}

#[test]
fn split_at_white_space() {
    let x = b(b"  one \t two\nthree  ");
    assert_eq!(pieces(x.split(None, -1).unwrap()), vec![b"one".to_vec(), b"two".to_vec(), b"three".to_vec()]);
    assert_eq!(pieces(x.split(None, 1).unwrap()), vec![b"one".to_vec(), b"two\nthree  ".to_vec()]);
    assert_eq!(pieces(x.rsplit(None, -1).unwrap()), vec![b"one".to_vec(), b"two".to_vec(), b"three".to_vec()]);
    assert_eq!(pieces(x.rsplit(None, 1).unwrap()), vec![b"  one \t two".to_vec(), b"three".to_vec()]);
    assert_eq!(pieces(x.split(None, 0).unwrap()), vec![b"one \t two\nthree  ".to_vec()]);
    assert_eq!(pieces(x.rsplit(None, 0).unwrap()), vec![b"  one \t two\nthree".to_vec()]);
    assert!(b(b"   ").split(None, -1).unwrap().is_empty());
    assert!(b(b"").rsplit(None, 2).unwrap().is_empty());
}
