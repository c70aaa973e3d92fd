use moon_component::text::{
    find_bytes, join_bytes, parse_usize, replace_bytes, rfind_bytes, split_bytes, trim_bytes,
};

#[test]
fn numbers() {
    assert_eq!(parse_usize(b"42"), Some(42));
    assert_eq!(parse_usize(b"+7"), Some(7));
    assert_eq!(parse_usize(b""), None);
    assert_eq!(parse_usize(b"+"), None);
    assert_eq!(parse_usize(b"4a"), None);
    assert_eq!(parse_usize(b"-1"), None);
    assert_eq!(parse_usize(b"99999999999999999999999"), None);
}

#[test]
fn searching() {
    assert_eq!(find_bytes(b"a))b))", b"))"), Some(1));
    assert_eq!(rfind_bytes(b"a))b))", b"))"), Some(4));
    assert_eq!(find_bytes(b"abc", b"x"), None);
}

#[test]
fn replacing_and_splitting() {
    assert_eq!(replace_bytes(b"aaa", b"aa", b"b"), b"ba".to_vec());
    assert_eq!(
        replace_bytes(b"(func (result i32) (result i32))", b" (result i32)", b""),
        b"(func)".to_vec()
    );
    let parts = split_bytes(b"a\n\nb\n", b'\n');
    assert_eq!(parts, vec![b"a".to_vec(), vec![], b"b".to_vec(), vec![]]);
    assert_eq!(join_bytes(&parts, b'\n'), b"a\n\nb\n".to_vec());
    assert_eq!(trim_bytes(b" \t drop \r"), b"drop".to_vec());
}
