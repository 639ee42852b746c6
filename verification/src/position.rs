//! Offset translation between editor positions (line, UTF-16 column),
//! internal tree points (row, byte column) and byte offsets.
//!
//! The document text is a sequence of UTF-8 bytes.  A position is reached
//! by walking the bytes from the start: a newline byte opens a new line,
//! every other byte contributes its UTF-16 width to the current column.

use vstd::prelude::*;

verus! {

/// Editor-protocol position: line plus column counted in UTF-16 code units.
#[derive(Clone, Copy, PartialEq, Eq, Structural, Debug)]
pub struct Position {
    pub line: usize,
    pub character: usize,
}

/// Internal tree coordinate: row plus column counted in UTF-8 bytes.
#[derive(Clone, Copy, PartialEq, Eq, Structural, Debug)]
pub struct Point {
    pub row: usize,
    pub column: usize,
}

/// Failures of the synchronization core.
#[derive(Clone, Copy, PartialEq, Eq, Structural, Debug)]
pub enum SyncError {
    /// A supplied position does not exist in the current text.
    OutOfRange,
    /// The referenced document has no open entry.
    UnknownDocument,
    /// The parser returned no tree.
    ParseFailure,
}

/// A UTF-8 continuation byte (second to fourth byte of a multi-byte
/// character).
pub open spec fn is_cont_byte(b: u8) -> bool {
    0x80 <= b < 0xC0
}

/// UTF-16 code units contributed by one UTF-8 byte: the lead byte of a
/// one- to three-byte character stands for one unit, the lead byte of a
/// four-byte character (outside the Basic Multilingual Plane) for two,
/// continuation bytes for none.
pub open spec fn utf16_width(b: u8) -> int {
    if is_cont_byte(b) {
        0
    } else if b < 0xF0 {
        1
    } else {
        2
    }
}

/// Line of byte offset `b`: the number of newline bytes before it.
pub open spec fn pos_line(t: Seq<u8>, b: int) -> int
    decreases b,
{
    if b <= 0 {
        0
    } else {
        pos_line(t, b - 1) + if t[b - 1] == 10 {
            1int
        } else {
            0int
        }
    }
}

/// UTF-16 column of byte offset `b`: code units since the last newline.
pub open spec fn pos_col16(t: Seq<u8>, b: int) -> int
    decreases b,
{
    if b <= 0 {
        0
    } else if t[b - 1] == 10 {
        0
    } else {
        pos_col16(t, b - 1) + utf16_width(t[b - 1])
    }
}

/// Byte column of byte offset `b`: bytes since the last newline.
pub open spec fn pos_bytecol(t: Seq<u8>, b: int) -> int
    decreases b,
{
    if b <= 0 {
        0
    } else if t[b - 1] == 10 {
        0
    } else {
        pos_bytecol(t, b - 1) + 1
    }
}

/// `b` does not point into the middle of a multi-byte character.
pub open spec fn is_char_boundary(t: Seq<u8>, b: int) -> bool {
    b == t.len() || !is_cont_byte(t[b])
}

/// Byte offset `b` is the place in `t` that the editor position
/// `(line, col16)` denotes.
pub open spec fn offset_matches(t: Seq<u8>, line: int, col16: int, b: int) -> bool {
    &&& 0 <= b <= t.len()
    &&& is_char_boundary(t, b)
    &&& pos_line(t, b) == line
    &&& pos_col16(t, b) == col16
}

/// Translates a byte offset into an editor position.  Succeeds for every
/// offset within the text, as the protocol asks.
pub fn byte_to_position(text: &Vec<u8>, offset: usize) -> (p: Position)
    requires
        offset <= text@.len(),
        text@.len() < usize::MAX as int / 2,
    ensures
        p.line == pos_line(text@, offset as int),
        p.character == pos_col16(text@, offset as int),
{
    let mut line: usize = 0;
    let mut col: usize = 0;
    let mut i: usize = 0;
    while i < offset
        invariant
            i <= offset,
            offset <= text@.len(),
            text@.len() < usize::MAX as int / 2,
            line as int == pos_line(text@, i as int),
            col as int == pos_col16(text@, i as int),
            line <= i,
            col <= 2 * i,
        decreases offset - i,
    {
        let b = text[i];
        if b == 10 {
            line = line + 1;
            col = 0;
        } else if b >= 0x80 && b < 0xC0 {
            // continuation byte: no UTF-16 units
        } else if b < 0xF0 {
            col = col + 1;
        } else {
            col = col + 2;
        }
        i = i + 1;
    }
    Position { line, character: col }
}

/// Translates a byte offset into an internal tree point.
pub fn byte_to_point(text: &Vec<u8>, offset: usize) -> (p: Point)
    requires
        offset <= text@.len(),
    ensures
        p.row == pos_line(text@, offset as int),
        p.column == pos_bytecol(text@, offset as int),
{
    let mut row: usize = 0;
    let mut col: usize = 0;
    let mut i: usize = 0;
    while i < offset
        invariant
            i <= offset,
            offset <= text@.len(),
            row as int == pos_line(text@, i as int),
            col as int == pos_bytecol(text@, i as int),
            row <= i,
            col <= i,
        decreases offset - i,
    {
        let b = text[i];
        if b == 10 {
            row = row + 1;
            col = 0;
        } else {
            col = col + 1;
        }
        i = i + 1;
    }
    Point { row, column: col }
}

/// Translates an editor position into a byte offset.  Returns `OutOfRange`
/// exactly when no character boundary of the text lies at that position:
/// the line does not exist, the column exceeds the line's UTF-16 length, or
/// the column falls between the two units of a surrogate pair.
pub fn position_to_byte(text: &Vec<u8>, pos: Position) -> (r: Result<usize, SyncError>)
    requires
        text@.len() < usize::MAX as int / 2,
    ensures
        (match r {
            Ok(b) => offset_matches(text@, pos.line as int, pos.character as int, b as int),
            Err(e) => e == SyncError::OutOfRange && forall|b: int|
                !offset_matches(text@, pos.line as int, pos.character as int, b),
        }),
{
    let n = text.len();
    let mut line: usize = 0;
    let mut col: usize = 0;
    let mut i: usize = 0;
    while i < n
        invariant
            i <= n,
            n == text@.len(),
            text@.len() < usize::MAX as int / 2,
            line as int == pos_line(text@, i as int),
            col as int == pos_col16(text@, i as int),
            line <= i,
            col <= 2 * i,
            forall|b: int| 0 <= b < i ==> !offset_matches(
                text@,
                pos.line as int,
                pos.character as int,
                b,
            ),
        decreases n - i,
    {
        let b = text[i];
        let boundary = !(b >= 0x80 && b < 0xC0);
        if boundary && line == pos.line && col == pos.character {
            return Ok(i);
        }
        if b == 10 {
            line = line + 1;
            col = 0;
        } else if b >= 0x80 && b < 0xC0 {
            // continuation byte: no UTF-16 units
        } else if b < 0xF0 {
            col = col + 1;
        } else {
            col = col + 2;
        }
        i = i + 1;
    }
    if line == pos.line && col == pos.character {
        Ok(n)
    } else {
        Err(SyncError::OutOfRange)
    }
}

/// The line of an offset never decreases as the offset grows.
pub proof fn lemma_pos_line_mono(t: Seq<u8>, b1: int, b2: int)
    requires
        0 <= b1 <= b2,
    ensures
        pos_line(t, b1) <= pos_line(t, b2),
    decreases b2,
{
    if b2 > b1 {
        lemma_pos_line_mono(t, b1, b2 - 1);
    }
}

/// Within one line, passing a character's lead byte raises the UTF-16
/// column by that character's full width.
proof fn lemma_col16_grows(t: Seq<u8>, b1: int, b2: int)
    requires
        0 <= b1 < b2 <= t.len(),
        pos_line(t, b1) == pos_line(t, b2),
        !is_cont_byte(t[b1]),
    ensures
        pos_col16(t, b2) >= pos_col16(t, b1) + utf16_width(t[b1]),
    decreases b2,
{
    lemma_pos_line_mono(t, b1, b2 - 1);
    lemma_pos_line_mono(t, b2 - 1, b2);
    if t[b2 - 1] == 10 {
        // then line(b2 - 1) < line(b2) == line(b1) <= line(b2 - 1)
        assert(false);
    }
    if b2 - 1 == b1 {
    } else {
        lemma_col16_grows(t, b1, b2 - 1);
    }
}

/// At most one character boundary of the text lies at a given editor
/// position.
pub proof fn lemma_offset_unique(t: Seq<u8>, line: int, col16: int, b1: int, b2: int)
    requires
        offset_matches(t, line, col16, b1),
        offset_matches(t, line, col16, b2),
    ensures
        b1 == b2,
{
    if b1 < b2 {
        lemma_col16_grows(t, b1, b2);
    }
    if b2 < b1 {
        lemma_col16_grows(t, b2, b1);
    }
}

/// Round-trip law: for every character boundary `b` of a document, the
/// editor position that `b` maps to maps back to `b` and to no other
/// offset.  Together with the contract of `position_to_byte` this gives
/// `position_to_byte(t, byte_to_position(t, b)) == Ok(b)`.
pub proof fn lemma_position_round_trip(t: Seq<u8>, b: int)
    requires
        0 <= b <= t.len(),
        is_char_boundary(t, b),
    ensures
        offset_matches(t, pos_line(t, b), pos_col16(t, b), b),
        forall|b2: int| offset_matches(t, pos_line(t, b), pos_col16(t, b), b2) ==> b2 == b,
{
    assert forall|b2: int| offset_matches(t, pos_line(t, b), pos_col16(t, b), b2) implies b2
        == b by {
        lemma_offset_unique(t, pos_line(t, b), pos_col16(t, b), b, b2);
    }
}

/// Multi-byte safety, in general: a character outside the Basic
/// Multilingual Plane occupies four bytes starting at boundary `b`, and
/// the position two UTF-16 units past `b`'s column on the same line
/// denotes exactly the offset four bytes later — not one or two.
/// Together with `position_to_byte`'s contract, looking that position up
/// returns `Ok(b + 4)`.
pub proof fn lemma_non_bmp_two_units(t: Seq<u8>, b: int)
    requires
        0 <= b,
        b + 4 <= t.len(),
        0xF0 <= t[b],
        is_cont_byte(t[b + 1]),
        is_cont_byte(t[b + 2]),
        is_cont_byte(t[b + 3]),
        is_char_boundary(t, b + 4),
    ensures
        offset_matches(t, pos_line(t, b), pos_col16(t, b) + 2, b + 4),
        forall|b2: int| #[trigger] offset_matches(t, pos_line(t, b), pos_col16(t, b) + 2, b2) ==> b2 == b + 4,
{
    assert(pos_line(t, b + 1) == pos_line(t, b) && pos_col16(t, b + 1) == pos_col16(t, b) + 2);
    assert(pos_line(t, b + 2) == pos_line(t, b + 1) && pos_col16(t, b + 2) == pos_col16(t, b + 1));
    assert(pos_line(t, b + 3) == pos_line(t, b + 2) && pos_col16(t, b + 3) == pos_col16(t, b + 2));
    assert(pos_line(t, b + 4) == pos_line(t, b + 3) && pos_col16(t, b + 4) == pos_col16(t, b + 3));
    assert forall|b2: int| #[trigger] offset_matches(t, pos_line(t, b), pos_col16(t, b) + 2, b2) implies b2
        == b + 4 by {
        lemma_offset_unique(t, pos_line(t, b), pos_col16(t, b) + 2, b2, b + 4);
    }
}

} // verus!
