use tjs_language_server::buffer::{slice_bytes, Buffer};
use tjs_language_server::position::{byte_to_position, position_to_byte, Position};
use tjs_language_server::registry::Registry;
use tjs_language_server::sync::{get_tree_sitter_edit_from_change, Change};
use tjs_language_server::syntax::smallest_named_node_covering;
use tjs_language_server::tree::new_tsx_parser;

fn change(sl: usize, sc: usize, el: usize, ec: usize, text: &str) -> Change {
    Change {
        range: Some((
            Position { line: sl, character: sc },
            Position { line: el, character: ec },
        )),
        range_length: None,
        text: text.as_bytes().to_vec(),
    }
}

#[test]
fn concrete_scenario_numeric_literal() {
    let mut parser = new_tsx_parser();
    let mut reg = Registry::new();
    let uri = b"file:///t.tsx".to_vec();
    reg.open(&mut parser, &uri, b"let x = 1;\n".to_vec(), 1);

    let changes = vec![change(0, 8, 0, 9, "42")];
    reg.change(&mut parser, &uri, &changes, 2).unwrap();

    let snap = reg.snapshot(&uri).unwrap();
    assert_eq!(snap.text, b"let x = 42;\n".to_vec());
    assert_eq!(snap.version, 2);
    let root = snap.root.as_ref().unwrap();
    let node = smallest_named_node_covering(root, 9, 9).unwrap();
    assert_eq!(node.info.kind, "number".to_owned());
    assert_eq!(
        slice_bytes(&snap.text, node.info.start_byte, node.info.end_byte),
        b"42".to_vec()
    );
}

#[test]
fn multibyte_insertion_resolves_past_four_bytes() {
    let mut parser = new_tsx_parser();
    let mut reg = Registry::new();
    let uri = b"file:///emoji.tsx".to_vec();
    reg.open(&mut parser, &uri, b"abcd\n".to_vec(), 1);

    // The emoji is one character, four UTF-8 bytes, two UTF-16 units.
    let changes = vec![change(0, 2, 0, 2, "\u{1F600}")];
    reg.change(&mut parser, &uri, &changes, 2).unwrap();

    let snap = reg.snapshot(&uri).unwrap();
    assert_eq!(snap.text, "ab\u{1F600}cd\n".as_bytes().to_vec());

    // A position two UTF-16 units past the insertion point lies four
    // bytes after it: directly behind the emoji, before 'c'.
    let b = position_to_byte(&snap.text, Position { line: 0, character: 4 }).unwrap();
    assert_eq!(b, 6);
    // One unit into the surrogate pair is no character boundary.
    assert!(position_to_byte(&snap.text, Position { line: 0, character: 3 }).is_err());
    // And back: the byte after the emoji maps to UTF-16 column 4.
    let p = byte_to_position(&snap.text, 6);
    assert_eq!((p.line, p.character), (0, 4));
}

#[test]
fn batch_edits_apply_in_order_against_fresh_text() {
    let mut parser = new_tsx_parser();
    let mut reg = Registry::new();
    let uri = b"file:///batch.tsx".to_vec();
    reg.open(&mut parser, &uri, b"hello world".to_vec(), 1);

    // The second edit's range is stated in post-first-edit coordinates,
    // as real editors send them.
    let changes = vec![change(0, 0, 0, 5, "hi"), change(0, 3, 0, 8, "there")];
    reg.change(&mut parser, &uri, &changes, 2).unwrap();
    let snap = reg.snapshot(&uri).unwrap();
    assert_eq!(snap.text, b"hi there".to_vec());
}

#[test]
fn batch_edits_against_stale_text_go_wrong() {
    // Regression guard: resolving the second edit's coordinates against
    // the original (pre-first-edit) text produces the wrong final text.
    let original = b"hello world".to_vec();
    let mut wrong = Buffer::new(original.clone(), 1);

    // Resolve both edits' byte offsets against the original text first.
    let s1 = position_to_byte(&original, Position { line: 0, character: 0 }).unwrap();
    let e1 = position_to_byte(&original, Position { line: 0, character: 5 }).unwrap();
    let s2 = position_to_byte(&original, Position { line: 0, character: 3 }).unwrap();
    let e2 = position_to_byte(&original, Position { line: 0, character: 8 }).unwrap();

    // Stale application: second range still in pre-first-edit offsets.
    wrong.apply(s2, e2, &b"there".to_vec());
    let _ = (s1, e1);
    assert_eq!(wrong.bytes, b"helthererld".to_vec());
    assert_ne!(wrong.bytes, b"hi there".to_vec());
}

#[test]
fn close_then_query_returns_no_data() {
    let mut parser = new_tsx_parser();
    let mut reg = Registry::new();
    let uri = b"file:///gone.tsx".to_vec();
    reg.open(&mut parser, &uri, b"let a = 0;\n".to_vec(), 1);

    // A query in flight at the moment of close keeps its snapshot.
    let in_flight = reg.snapshot(&uri).unwrap();
    reg.close(&uri);
    assert_eq!(in_flight.text, b"let a = 0;\n".to_vec());
    assert!(in_flight.root.is_some());

    // The next lookup finds the entry gone, without a panic.
    assert!(reg.snapshot(&uri).is_none());

    // Changes for a closed document are dropped.
    let changes = vec![change(0, 0, 0, 1, "x")];
    assert!(reg.change(&mut parser, &uri, &changes, 2).is_err());
}

#[test]
fn full_document_change_replaces_text() {
    let mut parser = new_tsx_parser();
    let mut reg = Registry::new();
    let uri = b"file:///full.tsx".to_vec();
    reg.open(&mut parser, &uri, b"let a = 0;\n".to_vec(), 1);
    let changes = vec![Change {
        range: None,
        range_length: None,
        text: b"const b = 2;\n".to_vec(),
    }];
    reg.change(&mut parser, &uri, &changes, 2).unwrap();
    let snap = reg.snapshot(&uri).unwrap();
    assert_eq!(snap.text, b"const b = 2;\n".to_vec());
}

#[test]
fn out_of_range_event_rejected_alone() {
    // An event whose range does not exist leaves the buffer untouched and
    // reports OutOfRange; the descriptor derivation never panics.
    let mut buf = Buffer::new(b"ab\n".to_vec(), 1);
    let bad = change(9, 0, 9, 1, "zz");
    assert!(get_tree_sitter_edit_from_change(&bad, &mut buf).is_err());
    assert_eq!(buf.bytes, b"ab\n".to_vec());

    let good = change(0, 1, 0, 2, "zz");
    let ed = get_tree_sitter_edit_from_change(&good, &mut buf).unwrap();
    assert_eq!(buf.bytes, b"azz\n".to_vec());
    assert_eq!(ed.start_byte, 1);
    assert_eq!(ed.old_end_byte, 2);
    assert_eq!(ed.new_end_byte, 3);
    assert_eq!((ed.new_end_position.row, ed.new_end_position.column), (0, 3));
}
