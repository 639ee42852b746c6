use tjs_language_server::text::{
    bytes_contains, concat_bytes, join_with_space, split_class_names, trim_bytes,
};

#[test]
fn trim_strips_ascii_whitespace() {
    assert_eq!(trim_bytes(&b"  btn \t".to_vec()), b"btn".to_vec());
    assert_eq!(trim_bytes(&b"\n\n".to_vec()), Vec::<u8>::new());
    assert_eq!(trim_bytes(&b"x".to_vec()), b"x".to_vec());
}

#[test]
fn split_drops_empty_pieces() {
    let parts = split_class_names(&b".btn-first.second".to_vec());
    assert_eq!(parts, vec![b"btn-first".to_vec(), b"second".to_vec()]);
    let lone = split_class_names(&b"plain".to_vec());
    assert_eq!(lone, vec![b"plain".to_vec()]);
    assert_eq!(split_class_names(&b"...".to_vec()), Vec::<Vec<u8>>::new());
}

#[test]
fn join_inserts_single_spaces() {
    let parts = vec![b"a".to_vec(), b"bc".to_vec(), b"d".to_vec()];
    assert_eq!(join_with_space(&parts), b"a bc d".to_vec());
    assert_eq!(join_with_space(&Vec::new()), Vec::<u8>::new());
}

#[test]
fn contains_finds_substring() {
    assert!(bytes_contains(&b"member_expression".to_vec(), &b"expression".to_vec()));
    assert!(!bytes_contains(&b"statement".to_vec(), &b"expression".to_vec()));
    assert!(bytes_contains(&b"x".to_vec(), &Vec::new()));
}

#[test]
fn concat_appends() {
    assert_eq!(concat_bytes(&b"ab".to_vec(), &b"cd".to_vec()), b"abcd".to_vec());
}
