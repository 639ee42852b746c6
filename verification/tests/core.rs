use tjs_language_server::buffer::Buffer;
use tjs_language_server::position::{byte_to_position, position_to_byte, Position, SyncError};

#[test]
fn round_trip_all_offsets() {
    let text: Vec<u8> = b"let x = 1;\nlet y = 2;\n".to_vec();
    for b in 0..=text.len() {
        let p = byte_to_position(&text, b);
        assert_eq!(position_to_byte(&text, p), Ok(b));
    }
}

#[test]
fn out_of_range_line_rejected() {
    let text: Vec<u8> = b"a\n".to_vec();
    let r = position_to_byte(&text, Position { line: 5, character: 0 });
    assert_eq!(r, Err(SyncError::OutOfRange));
}

#[test]
fn line_lookup_matches_content() {
    let buf = Buffer::new(b"first\nsecond\n".to_vec(), 1);
    assert_eq!(buf.line(0), Some(b"first".to_vec()));
    assert_eq!(buf.line(1), Some(b"second".to_vec()));
    // The trailing newline opens one final empty line, as rope-based
    // buffers count them.
    assert_eq!(buf.line(2), Some(Vec::new()));
    assert_eq!(buf.line(3), None);
}

#[test]
fn round_trip_multibyte_offsets() {
    // Mixed one-, two-, three- and four-byte characters.
    let text: Vec<u8> = "a\u{00E9}\u{4E16}\u{1F600}b\nx\u{1F601}y\n".as_bytes().to_vec();
    let s = String::from_utf8(text.clone()).unwrap();
    for b in 0..=text.len() {
        if !s.is_char_boundary(b) {
            continue;
        }
        let p = byte_to_position(&text, b);
        assert_eq!(position_to_byte(&text, p), Ok(b), "offset {}", b);
    }
}

#[test]
fn column_inside_wide_character_rejected() {
    // One unit into the emoji's surrogate pair names no boundary.
    let text: Vec<u8> = "\u{1F600}".as_bytes().to_vec();
    let r = position_to_byte(&text, Position { line: 0, character: 1 });
    assert_eq!(r, Err(SyncError::OutOfRange));
    assert_eq!(position_to_byte(&text, Position { line: 0, character: 2 }), Ok(4));
}
