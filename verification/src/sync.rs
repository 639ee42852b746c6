//! Derivation of tree edit descriptors from editor change events.
//!
//! One change event replaces a position range (or the whole document) with
//! new text.  Against the pre-edit buffer the wire positions become byte
//! offsets; the buffer is spliced; the new end position is re-derived from
//! the post-edit text, since inserted text may itself contain newlines.

use vstd::prelude::*;
use crate::buffer::{splice, Buffer};
use crate::position::{
    byte_to_point, offset_matches, pos_bytecol, pos_line, position_to_byte, Point, Position,
    SyncError,
};

verus! {

/// One change event of a `didChange` notification.  A change without a
/// range replaces the whole document text.  `range_length` is the
/// protocol's redundant UTF-16 length of the replaced range; it is
/// informational only and never consulted: the length is recomputed from
/// the range itself.
pub struct Change {
    pub range: Option<(Position, Position)>,
    pub range_length: Option<u32>,
    pub text: Vec<u8>,
}

/// The byte/position delta describing one textual change, handed to the
/// parse tree so it can shift node ranges before the reparse.
#[derive(Clone, Copy, PartialEq, Eq, Structural, Debug)]
pub struct EditDescriptor {
    pub start_byte: usize,
    pub old_end_byte: usize,
    pub new_end_byte: usize,
    pub start_position: Point,
    pub old_end_position: Point,
    pub new_end_position: Point,
}

/// Some character boundary of `t` lies at position `p`.
pub open spec fn pos_in_text(t: Seq<u8>, p: Position) -> bool {
    exists|b: int| offset_matches(t, p.line as int, p.character as int, b)
}

/// The byte offset that position `p` denotes in `t` (meaningful only when
/// `pos_in_text` holds; unique by `lemma_offset_unique`).
pub open spec fn byte_of_pos(t: Seq<u8>, p: Position) -> int {
    choose|b: int| offset_matches(t, p.line as int, p.character as int, b)
}

/// Both ends of the change's range lie in the text, in order.
pub open spec fn change_valid(t: Seq<u8>, c: &Change) -> bool {
    match c.range {
        Some((s, e)) => pos_in_text(t, s) && pos_in_text(t, e) && byte_of_pos(t, s) <= byte_of_pos(
            t,
            e,
        ),
        None => true,
    }
}

/// First byte of the replaced range.
pub open spec fn change_start_byte(t: Seq<u8>, c: &Change) -> int {
    match c.range {
        Some((s, _)) => byte_of_pos(t, s),
        None => 0,
    }
}

/// One past the last byte of the replaced range, in the pre-edit text.
pub open spec fn change_old_end_byte(t: Seq<u8>, c: &Change) -> int {
    match c.range {
        Some((_, e)) => byte_of_pos(t, e),
        None => t.len() as int,
    }
}

/// The text after one change event: the splice it describes, or the text
/// unchanged when the event's range does not exist in it (such an event is
/// rejected, never partially applied).
pub open spec fn apply_change_spec(t: Seq<u8>, c: &Change) -> Seq<u8> {
    match c.range {
        Some((s, e)) => if change_valid(t, c) {
            splice(t, byte_of_pos(t, s), byte_of_pos(t, e), c.text@)
        } else {
            t
        },
        None => c.text@,
    }
}

/// The text after a whole change batch, each event interpreted against the
/// text its predecessors left behind — never against stale coordinates.
pub open spec fn apply_batch_spec(t: Seq<u8>, cs: Seq<Change>) -> Seq<u8>
    decreases cs.len(),
{
    if cs.len() == 0 {
        t
    } else {
        apply_batch_spec(apply_change_spec(t, &cs[0]), cs.drop_first())
    }
}

/// The descriptor `ed` describes change `c` against pre-edit text `t`:
/// byte offsets against `t`, the new end position against the post-edit
/// text.
pub open spec fn descriptor_for(ed: EditDescriptor, t: Seq<u8>, c: &Change) -> bool {
    let sb = change_start_byte(t, c);
    let ob = change_old_end_byte(t, c);
    let nb = sb + c.text@.len();
    let t2 = apply_change_spec(t, c);
    &&& ed.start_byte == sb
    &&& ed.old_end_byte == ob
    &&& ed.new_end_byte == nb
    &&& ed.start_position.row == pos_line(t, sb)
    &&& ed.start_position.column == pos_bytecol(t, sb)
    &&& ed.old_end_position.row == pos_line(t, ob)
    &&& ed.old_end_position.column == pos_bytecol(t, ob)
    &&& ed.new_end_position.row == pos_line(t2, nb)
    &&& ed.new_end_position.column == pos_bytecol(t2, nb)
}

/// Applies one change event to the buffer and derives the tree edit
/// descriptor for it.  Returns `OutOfRange`, leaving the buffer untouched,
/// exactly when the event's range does not exist in the pre-edit text.
pub fn get_tree_sitter_edit_from_change(change: &Change, buffer: &mut Buffer) -> (r: Result<
    EditDescriptor,
    SyncError,
>)
    requires
        old(buffer).wf(),
        old(buffer).bytes@.len() + change.text@.len() < usize::MAX as int / 2,
    ensures
        final(buffer).version == old(buffer).version,
        final(buffer).wf(),
        (match r {
            Ok(ed) => change_valid(old(buffer).bytes@, change) && final(buffer).bytes@
                == apply_change_spec(old(buffer).bytes@, change) && descriptor_for(
                ed,
                old(buffer).bytes@,
                change,
            ),
            Err(e) => e == SyncError::OutOfRange && !change_valid(old(buffer).bytes@, change)
                && final(buffer).bytes@ == old(buffer).bytes@,
        }),
{
    match &change.range {
        None => {
            let old_len = buffer.len();
            let start_position = Point { row: 0, column: 0 };
            let old_end_position = byte_to_point(&buffer.bytes, old_len);
            let new_bytes = crate::buffer::copy_bytes(&change.text);
            let new_len = new_bytes.len();
            buffer.replace_all(new_bytes);
            let new_end_position = byte_to_point(&buffer.bytes, new_len);
            Ok(
                EditDescriptor {
                    start_byte: 0,
                    old_end_byte: old_len,
                    new_end_byte: new_len,
                    start_position,
                    old_end_position,
                    new_end_position,
                },
            )
        },
        Some((s, e)) => {
            let ghost t = buffer.bytes@;
            let sb = match position_to_byte(&buffer.bytes, *s) {
                Ok(b) => b,
                Err(err) => {
                    return Err(err);
                },
            };
            let eb = match position_to_byte(&buffer.bytes, *e) {
                Ok(b) => b,
                Err(err) => {
                    return Err(err);
                },
            };
            proof {
                lemma_offset_unique_pos(t, *s, sb as int);
                lemma_offset_unique_pos(t, *e, eb as int);
            }
            if sb > eb {
                return Err(SyncError::OutOfRange);
            }
            let start_position = byte_to_point(&buffer.bytes, sb);
            let old_end_position = byte_to_point(&buffer.bytes, eb);
            buffer.apply(sb, eb, &change.text);
            let new_end_byte = sb + change.text.len();
            let new_end_position = byte_to_point(&buffer.bytes, new_end_byte);
            Ok(
                EditDescriptor {
                    start_byte: sb,
                    old_end_byte: eb,
                    new_end_byte,
                    start_position,
                    old_end_position,
                    new_end_position,
                },
            )
        },
    }
}

/// A byte offset that matches a position is the one `byte_of_pos` denotes.
proof fn lemma_offset_unique_pos(t: Seq<u8>, p: Position, b: int)
    requires
        offset_matches(t, p.line as int, p.character as int, b),
    ensures
        pos_in_text(t, p),
        byte_of_pos(t, p) == b,
{
    assert(pos_in_text(t, p));
    let b2 = byte_of_pos(t, p);
    assert(offset_matches(t, p.line as int, p.character as int, b2));
    crate::position::lemma_offset_unique(t, p.line as int, p.character as int, b, b2);
}

/// Descriptor `ed` truthfully relates pre-edit text `t` to post-edit text
/// `t2`: its byte offsets and positions are those of a real replacement
/// of `t[start_byte..old_end_byte]` whose result is `t2`.  This is the
/// condition under which a tree told of `ed` keeps matching the text.
pub open spec fn edit_relates(ed: EditDescriptor, t: Seq<u8>, t2: Seq<u8>) -> bool {
    &&& ed.start_byte <= ed.old_end_byte <= t.len()
    &&& ed.start_byte <= ed.new_end_byte <= t2.len()
    &&& t2.len() - ed.new_end_byte == t.len() - ed.old_end_byte
    &&& t2.subrange(0, ed.start_byte as int) == t.subrange(0, ed.start_byte as int)
    &&& t2.skip(ed.new_end_byte as int) == t.skip(ed.old_end_byte as int)
    &&& ed.start_position.row == pos_line(t, ed.start_byte as int)
    &&& ed.start_position.column == pos_bytecol(t, ed.start_byte as int)
    &&& ed.old_end_position.row == pos_line(t, ed.old_end_byte as int)
    &&& ed.old_end_position.column == pos_bytecol(t, ed.old_end_byte as int)
    &&& ed.new_end_position.row == pos_line(t2, ed.new_end_byte as int)
    &&& ed.new_end_position.column == pos_bytecol(t2, ed.new_end_byte as int)
}

/// The descriptor a valid change yields does relate the pre-edit text to
/// the text the change leaves behind.
pub proof fn lemma_descriptor_relates(ed: EditDescriptor, t: Seq<u8>, c: &Change)
    requires
        change_valid(t, c),
        descriptor_for(ed, t, c),
    ensures
        edit_relates(ed, t, apply_change_spec(t, c)),
{
    let t2 = apply_change_spec(t, c);
    match c.range {
        None => {
            assert(t2 == c.text@);
            assert(t2.subrange(0, 0) =~= t.subrange(0, 0));
            assert(t2.skip(ed.new_end_byte as int) =~= t.skip(ed.old_end_byte as int));
        },
        Some((s, e)) => {
            let sb = byte_of_pos(t, s);
            let eb = byte_of_pos(t, e);
            assert(offset_matches(t, s.line as int, s.character as int, sb));
            assert(offset_matches(t, e.line as int, e.character as int, eb));
            assert(t2 == splice(t, sb, eb, c.text@));
            assert(t2.subrange(0, sb) =~= t.subrange(0, sb));
            assert(t2.skip(sb + c.text@.len()) =~= t.skip(eb));
        },
    }
}


} // verus!
