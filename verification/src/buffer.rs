//! The document buffer: the authoritative UTF-8 text of one open file,
//! mutated in place by replace-range edits.
//!
//! A flat byte vector with a naive splice; every edit's effect is stated
//! exactly as a sequence equation over the pre-edit text.

use vstd::prelude::*;
use crate::position::{lemma_pos_line_mono, pos_line};
use crate::text::{find_byte_from, idx_of_byte};

verus! {

/// The text that replacing `t[start..end]` with `new` leaves behind.
pub open spec fn splice(t: Seq<u8>, start: int, end: int, new: Seq<u8>) -> Seq<u8> {
    t.subrange(0, start) + new + t.subrange(end, t.len() as int)
}

/// An owned copy of a byte string.
pub fn copy_bytes(src: &Vec<u8>) -> (r: Vec<u8>)
    ensures
        r@ == src@,
{
    let mut out: Vec<u8> = Vec::new();
    let mut i: usize = 0;
    while i < src.len()
        invariant
            i <= src@.len(),
            out@ == src@.subrange(0, i as int),
        decreases src@.len() - i,
    {
        out.push(src[i]);
        i = i + 1;
        assert(out@ =~= src@.subrange(0, i as int));
    }
    assert(out@ =~= src@);
    out
}

/// The bytes of `src[start..end]`: how a node's text is read off the
/// current buffer, so a node slice always equals the corresponding
/// substring of the text it was sliced from.
pub fn slice_bytes(src: &Vec<u8>, start: usize, end: usize) -> (r: Vec<u8>)
    requires
        start <= end <= src@.len(),
    ensures
        r@ == src@.subrange(start as int, end as int),
{
    let mut out: Vec<u8> = Vec::new();
    let mut i: usize = start;
    while i < end
        invariant
            start <= i <= end,
            end <= src@.len(),
            out@ == src@.subrange(start as int, i as int),
        decreases end - i,
    {
        out.push(src[i]);
        i = i + 1;
        assert(out@ =~= src@.subrange(start as int, i as int));
    }
    out
}

/// The text of one open document, with the version counter the editor
/// supplied last.
pub struct Buffer {
    pub bytes: Vec<u8>,
    pub version: i64,
}

impl Buffer {
    /// The text stays short enough that a UTF-16 column, at most two units
    /// per byte, still fits in a machine word.
    pub open spec fn wf(&self) -> bool {
        self.bytes@.len() < usize::MAX as int / 2
    }

    pub fn new(bytes: Vec<u8>, version: i64) -> (b: Buffer)
        requires
            bytes@.len() < usize::MAX as int / 2,
        ensures
            b.bytes@ == bytes@,
            b.version == version,
            b.wf(),
    {
        Buffer { bytes, version }
    }

    pub fn len(&self) -> (n: usize)
        ensures
            n == self.bytes@.len(),
    {
        self.bytes.len()
    }

    /// The full current content, for reparsing and for slicing node text.
    pub fn text(&self) -> (r: &Vec<u8>)
        ensures
            r@ == self.bytes@,
    {
        &self.bytes
    }

    /// Replaces the byte range `start..end` with `new_text`.  The caller
    /// (the synchronizer) has validated the range against the pre-edit
    /// text.
    pub fn apply(&mut self, start: usize, end: usize, new_text: &Vec<u8>)
        requires
            old(self).wf(),
            start <= end <= old(self).bytes@.len(),
            old(self).bytes@.len() - (end - start) + new_text@.len() < usize::MAX as int / 2,
        ensures
            final(self).bytes@ == splice(old(self).bytes@, start as int, end as int, new_text@),
            final(self).version == old(self).version,
            final(self).wf(),
    {
        let n = self.bytes.len();
        let mut out: Vec<u8> = Vec::new();
        let mut i: usize = 0;
        while i < start
            invariant
                i <= start,
                start <= end <= self.bytes@.len(),
                out@ == self.bytes@.subrange(0, i as int),
            decreases start - i,
        {
            out.push(self.bytes[i]);
            i = i + 1;
            assert(out@ =~= self.bytes@.subrange(0, i as int));
        }
        let mut j: usize = 0;
        while j < new_text.len()
            invariant
                j <= new_text@.len(),
                start <= end <= self.bytes@.len(),
                out@ == self.bytes@.subrange(0, start as int) + new_text@.subrange(0, j as int),
            decreases new_text@.len() - j,
        {
            out.push(new_text[j]);
            j = j + 1;
            assert(out@ =~= self.bytes@.subrange(0, start as int) + new_text@.subrange(
                0,
                j as int,
            ));
        }
        assert(new_text@.subrange(0, new_text@.len() as int) =~= new_text@);
        let mut k: usize = end;
        while k < n
            invariant
                end <= k <= n,
                n == self.bytes@.len(),
                start <= end,
                out@ == self.bytes@.subrange(0, start as int) + new_text@ + self.bytes@.subrange(
                    end as int,
                    k as int,
                ),
            decreases n - k,
        {
            out.push(self.bytes[k]);
            k = k + 1;
            assert(out@ =~= self.bytes@.subrange(0, start as int) + new_text@
                + self.bytes@.subrange(end as int, k as int));
        }
        self.bytes = out;
    }

    /// Replaces the whole text, as a change event without a range asks.
    pub fn replace_all(&mut self, new_text: Vec<u8>)
        requires
            new_text@.len() < usize::MAX as int / 2,
        ensures
            final(self).bytes@ == new_text@,
            final(self).version == old(self).version,
            final(self).wf(),
    {
        self.bytes = new_text;
    }
}

/// `b` is where line `l` of `t` begins: the text's start or the byte
/// after a newline, with `l` newlines before it.
pub open spec fn is_line_start(t: Seq<u8>, l: int, b: int) -> bool {
    &&& 0 <= b <= t.len()
    &&& (b == 0 || t[b - 1] == 10)
    &&& pos_line(t, b) == l
}

/// Line `l` exists in `t`.
pub open spec fn line_exists(t: Seq<u8>, l: int) -> bool {
    exists|b: int| is_line_start(t, l, b)
}

/// Where line `l` of `t` begins (meaningful when the line exists; unique
/// by `lemma_line_start_unique`).
pub open spec fn line_start_of(t: Seq<u8>, l: int) -> int {
    choose|b: int| is_line_start(t, l, b)
}

/// One past the last content byte of the line starting at `s`: the next
/// newline, or the text's end.
pub open spec fn line_end_from(t: Seq<u8>, s: int) -> int {
    s + idx_of_byte(t.skip(s), 10)
}

/// Each line starts in exactly one place: a later start of the same line
/// would need a newline between the two, which would put them on
/// different lines.
pub proof fn lemma_line_start_unique(t: Seq<u8>, l: int, b1: int, b2: int)
    requires
        is_line_start(t, l, b1),
        is_line_start(t, l, b2),
    ensures
        b1 == b2,
{
    if b1 < b2 {
        lemma_pos_line_mono(t, b1, b2 - 1);
        assert(pos_line(t, b2) == pos_line(t, b2 - 1) + 1);
    }
    if b2 < b1 {
        lemma_pos_line_mono(t, b2, b1 - 1);
        assert(pos_line(t, b1) == pos_line(t, b1 - 1) + 1);
    }
}

impl Buffer {
    /// One line's content, without its newline: the bytes from the line's
    /// start to the next newline or the text's end.  Nothing when the
    /// text has fewer lines.
    pub fn line(&self, n: usize) -> (r: Option<Vec<u8>>)
        ensures
            (match r {
                Some(l) => line_exists(self.bytes@, n as int) && l@ == self.bytes@.subrange(
                    line_start_of(self.bytes@, n as int),
                    line_end_from(self.bytes@, line_start_of(self.bytes@, n as int)),
                ),
                None => !line_exists(self.bytes@, n as int),
            }),
    {
        buffer_line(&self.bytes, n)
    }
}

/// One line's content, without its newline; see `Buffer::line`.
pub fn buffer_line(text: &Vec<u8>, n: usize) -> (r: Option<Vec<u8>>)
    ensures
        (match r {
            Some(l) => line_exists(text@, n as int) && l@ == text@.subrange(
                line_start_of(text@, n as int),
                line_end_from(text@, line_start_of(text@, n as int)),
            ),
            None => !line_exists(text@, n as int),
        }),
{
    let len = text.len();
    let mut count: usize = 0;
    let mut i: usize = 0;
    let mut start: usize = 0;
    let mut found: bool = n == 0;
    while i < len && !found
        invariant
            i <= len,
            len == text@.len(),
            count <= n,
            count as int == pos_line(text@, i as int),
            !found ==> count < n,
            found ==> is_line_start(text@, n as int, start as int),
        decreases len - i,
    {
        if text[i] == 10 {
            count = count + 1;
            if count == n {
                start = i + 1;
                found = true;
            }
        }
        i = i + 1;
    }
    if !found {
        proof {
            assert(pos_line(text@, len as int) < n);
            assert forall|b: int| !is_line_start(text@, n as int, b) by {
                if 0 <= b <= text@.len() {
                    lemma_pos_line_mono(text@, b, len as int);
                }
            }
        }
        return None;
    }
    let e = find_byte_from(text, start, 10);
    proof {
        let t = text@;
        let s = start as int;
        assert(is_line_start(t, n as int, s));
        lemma_line_start_unique(t, n as int, s, line_start_of(t, n as int));
        assert forall|j: int| 0 <= j < e - s implies t.skip(s)[j] != 10 by {
            assert(t.skip(s)[j] == t[s + j]);
        }
        if e < len {
            assert(t.skip(s)[e - s] == t[e as int]);
        }
        crate::text::lemma_idx_of_byte_unique(t.skip(s), 10, e - s);
    }
    Some(slice_bytes(text, start, e))
}

} // verus!
