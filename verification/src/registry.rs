//! The document registry: one (buffer, tree) pair per open URI, created on
//! open, evolved on change, destroyed on close.
//!
//! The central invariant: a document whose tree is fresh stores a tree
//! whose structure is exactly what parsing the document's current text
//! from scratch would yield.  A change batch applies every event in the
//! order received, each against the text its predecessors left behind,
//! then reparses once with the edited tree as a hint.

use vstd::prelude::*;
use crate::buffer::{copy_bytes, Buffer};
use crate::text::bytes_eq;
use crate::position::SyncError;
use crate::sync::{apply_batch_spec, apply_change_spec, get_tree_sitter_edit_from_change, Change};
use crate::tree::{
    copy_shape, encode_syntax, parse_bytes, shape_of, tree_edit, tree_matches, tree_shape,
    tree_to_syntax, ParserHandle, SyntaxNode,
};

verus! {

/// The state of one open document.
pub struct DocEntry {
    pub uri: Vec<u8>,
    pub buffer: Buffer,
    pub lang: u32,
    pub tree: Option<tree_sitter::Tree>,
    pub stale: bool,
}

impl DocEntry {
    /// The buffer is well-formed; a stored tree has been told of every
    /// edit, so it matches the current text; and a fresh (non-stale) tree
    /// has exactly the structure of parsing the current text from scratch.
    pub open spec fn inv(&self) -> bool {
        &&& self.buffer.wf()
        &&& (self.tree is Some ==> tree_matches(self.tree->Some_0, self.buffer.bytes@))
        &&& (self.synced() ==> shape_of(self.tree->Some_0) == tree_shape(
            self.lang as int,
            self.buffer.bytes@,
        ))
    }

    /// The document has a tree and no reparse failed since the last edit.
    pub open spec fn synced(&self) -> bool {
        self.tree is Some && !self.stale
    }
}

/// All open documents, keyed by URI; at most one entry per URI.
pub struct Registry {
    pub entries: Vec<DocEntry>,
}

/// Total bytes of new text across a change batch.
pub open spec fn batch_text_len(cs: Seq<Change>) -> int
    decreases cs.len(),
{
    if cs.len() == 0 {
        0
    } else {
        cs[0].text@.len() + batch_text_len(cs.drop_first())
    }
}

impl Registry {
    /// URIs are pairwise distinct and every entry keeps its invariant.
    pub open spec fn wf(&self) -> bool {
        &&& forall|i: int, j: int|
            0 <= i < j < self.entries@.len() ==> (#[trigger] self.entries@[i]).uri@ != (
            #[trigger] self.entries@[j]).uri@
        &&& forall|i: int| 0 <= i < self.entries@.len() ==> (#[trigger] self.entries@[i]).inv()
    }

    /// Some entry is keyed by `uri`.
    pub open spec fn has_doc(&self, uri: Seq<u8>) -> bool {
        exists|i: int| 0 <= i < self.entries@.len() && (#[trigger] self.entries@[i]).uri@ == uri
    }

    /// The index of the entry keyed by `uri` (meaningful when `has_doc`).
    pub open spec fn index_of(&self, uri: Seq<u8>) -> int {
        choose|i: int| 0 <= i < self.entries@.len() && (#[trigger] self.entries@[i]).uri@ == uri
    }

    /// The entry keyed by `uri`.
    pub open spec fn doc(&self, uri: Seq<u8>) -> DocEntry {
        self.entries@[self.index_of(uri)]
    }

    pub open spec fn doc_text(&self, uri: Seq<u8>) -> Seq<u8> {
        self.doc(uri).buffer.bytes@
    }

    pub open spec fn doc_version(&self, uri: Seq<u8>) -> int {
        self.doc(uri).buffer.version as int
    }

    pub open spec fn doc_lang(&self, uri: Seq<u8>) -> int {
        self.doc(uri).lang as int
    }

    pub open spec fn doc_synced(&self, uri: Seq<u8>) -> bool {
        self.doc(uri).synced()
    }

    pub fn new() -> (r: Registry)
        ensures
            r.wf(),
            forall|u: Seq<u8>| !r.has_doc(u),
            r.entries@.len() == 0,
    {
        Registry { entries: Vec::new() }
    }

    /// In a well-formed registry the entry at `i` is the one its URI finds.
    proof fn lemma_entry_at(&self, i: int)
        requires
            self.wf(),
            0 <= i < self.entries@.len(),
        ensures
            self.has_doc(self.entries@[i].uri@),
            self.index_of(self.entries@[i].uri@) == i,
            self.doc(self.entries@[i].uri@) == self.entries@[i],
    {
        let u = self.entries@[i].uri@;
        assert(self.has_doc(u));
        let j = self.index_of(u);
        assert(0 <= j < self.entries@.len() && self.entries@[j].uri@ == u);
        if i < j {
            assert(self.entries@[i].uri@ != self.entries@[j].uri@);
        }
        if j < i {
            assert(self.entries@[j].uri@ != self.entries@[i].uri@);
        }
    }

    /// Finds the entry keyed by `uri`.
    fn find(&self, uri: &Vec<u8>) -> (r: Option<usize>)
        requires
            self.wf(),
        ensures
            (match r {
                Some(i) => i < self.entries@.len() && self.entries@[i as int].uri@ == uri@
                    && self.has_doc(uri@) && self.index_of(uri@) == i,
                None => !self.has_doc(uri@),
            }),
    {
        let n = self.entries.len();
        let mut i: usize = 0;
        while i < n
            invariant
                i <= n,
                n == self.entries@.len(),
                self.wf(),
                forall|k: int| 0 <= k < i ==> (#[trigger] self.entries@[k]).uri@ != uri@,
            decreases n - i,
        {
            if bytes_eq(&self.entries[i].uri, uri) {
                proof {
                    self.lemma_entry_at(i as int);
                }
                return Some(i);
            }
            i = i + 1;
        }
        None
    }

    /// Removes the document keyed by `uri`; does nothing when there is
    /// none.  Afterwards a lookup of `uri` finds no data, whatever else
    /// is in flight.
    pub fn close(&mut self, uri: &Vec<u8>)
        requires
            old(self).wf(),
        ensures
            final(self).wf(),
            !final(self).has_doc(uri@),
            forall|u: Seq<u8>|
                u != uri@ ==> (final(self).has_doc(u) <==> old(self).has_doc(u)),
            forall|u: Seq<u8>|
                u != uri@ && old(self).has_doc(u) ==> final(self).doc(u) == old(self).doc(u),
    {
        let found = self.find(uri);
        match found {
            None => {
                assert(!self.has_doc(uri@));
            },
            Some(i) => {
                let ghost pre = self.entries@;
                self.entries.remove(i);
                proof {
                    let post = self.entries@;
                    assert(post =~= pre.subrange(0, i as int) + pre.subrange(
                        i + 1,
                        pre.len() as int,
                    ));
                    assert forall|k: int| 0 <= k < post.len() implies post[k] == (if k < i as int {
                        pre[k]
                    } else {
                        pre[k + 1]
                    }) by {}
                    assert forall|u: Seq<u8>| u != uri@ && old(self).has_doc(u) implies final(self).has_doc(u) && final(self).doc(u) == old(self).doc(u) by {
                        let j = old(self).index_of(u);
                        assert(0 <= j < pre.len() && pre[j].uri@ == u);
                        assert(j != i as int);
                        let j2 = if j < i as int {
                            j
                        } else {
                            j - 1
                        };
                        assert(post[j2] == pre[j]);
                        assert(final(self).has_doc(u));
                        final(self).lemma_entry_at(j2);
                        old(self).lemma_entry_at(j);
                    }
                    assert forall|u: Seq<u8>| u != uri@ && final(self).has_doc(u) implies old(self).has_doc(u) by {
                        let k = final(self).index_of(u);
                        assert(0 <= k < post.len() && post[k].uri@ == u);
                        let k2 = if k < i as int {
                            k
                        } else {
                            k + 1
                        };
                        assert(pre[k2].uri@ == u);
                    }
                    assert forall|k: int| 0 <= k < post.len() implies post[k].uri@ != uri@ by {
                        old(self).lemma_entry_at(i as int);
                        if k < i as int {
                            old(self).lemma_entry_at(k);
                        } else {
                            old(self).lemma_entry_at(k + 1);
                        }
                    }
                }
            },
        }
    }

    /// Opens a document: stores its full text under `uri`, parses it from
    /// scratch with the handed parser, and replaces any earlier entry for
    /// the same URI wholesale.
    pub fn open(&mut self, parser: &mut ParserHandle, uri: &Vec<u8>, text: Vec<u8>, version: i64)
        requires
            old(self).wf(),
            text@.len() < usize::MAX as int / 2,
        ensures
            final(self).wf(),
            final(parser).lang == old(parser).lang,
            final(self).has_doc(uri@),
            final(self).doc_text(uri@) == text@,
            final(self).doc_version(uri@) == version as int,
            final(self).doc_lang(uri@) == old(parser).lang as int,
            forall|u: Seq<u8>|
                u != uri@ ==> (final(self).has_doc(u) <==> old(self).has_doc(u)),
            forall|u: Seq<u8>|
                u != uri@ && old(self).has_doc(u) ==> final(self).doc(u) == old(self).doc(u),
    {
        self.close(uri);
        let ghost mid = *self;
        let tree = parse_bytes(parser, &text, None);
        let entry = DocEntry {
            uri: copy_bytes(uri),
            buffer: Buffer::new(text, version),
            lang: parser.lang,
            tree,
            stale: false,
        };
        let ghost pre = self.entries@;
        self.entries.push(entry);
        proof {
            let post = self.entries@;
            let n = pre.len() as int;
            assert(post[n].uri@ == uri@);
            assert(final(self).has_doc(uri@));
            assert forall|k: int| 0 <= k < n implies post[k] == pre[k] by {}
            assert forall|k: int| 0 <= k < n implies pre[k].uri@ != uri@ by {
                mid.lemma_entry_at(k);
            }
            assert(final(self).wf());
            final(self).lemma_entry_at(n);
            assert forall|u: Seq<u8>| u != uri@ && mid.has_doc(u) implies final(self).has_doc(u)
                && final(self).doc(u) == mid.doc(u) by {
                let j = mid.index_of(u);
                assert(0 <= j < n && pre[j].uri@ == u);
                assert(post[j].uri@ == u);
                assert(final(self).has_doc(u));
                final(self).lemma_entry_at(j);
                mid.lemma_entry_at(j);
            }
            assert forall|u: Seq<u8>| u != uri@ && final(self).has_doc(u) implies mid.has_doc(
                u,
            ) by {
                let k = final(self).index_of(u);
                assert(0 <= k < post.len() && post[k].uri@ == u);
                assert(k != n);
                assert(pre[k].uri@ == u);
            }
        }
    }

    /// Applies one change batch to the document keyed by `uri`: every
    /// event in order, each translated and spliced against the text its
    /// predecessors left, the stored tree told of every applied edit, then
    /// one reparse seeded with the edited tree.  An event whose range does
    /// not exist in the then-current text is rejected alone and changes
    /// nothing.  A change for an unknown document is dropped: the registry
    /// is left untouched.
    pub fn change(
        &mut self,
        parser: &mut ParserHandle,
        uri: &Vec<u8>,
        changes: &Vec<Change>,
        version: i64,
    ) -> (r: Result<(), SyncError>)
        requires
            old(self).wf(),
            old(self).has_doc(uri@) ==> old(self).doc_lang(uri@) == old(parser).lang as int,
            old(self).has_doc(uri@) ==> old(self).doc_text(uri@).len() + batch_text_len(changes@)
                < usize::MAX as int / 2,
        ensures
            final(self).wf(),
            final(parser).lang == old(parser).lang,
            (match r {
                Ok(()) => old(self).has_doc(uri@),
                Err(e) => e == SyncError::UnknownDocument && !old(self).has_doc(uri@) && *final(self) == *old(self),
            }),
            old(self).has_doc(uri@) ==> r is Ok && final(self).has_doc(uri@) && final(self).doc_text(uri@) == apply_batch_spec(old(self).doc_text(uri@), changes@) && final(self).doc_version(uri@) == version as int && final(self).doc_lang(uri@) == old(self).doc_lang(uri@),
            old(self).has_doc(uri@) && old(self).doc(uri@).tree is Some ==> final(self).doc(
                uri@,
            ).tree is Some,
            forall|u: Seq<u8>|
                u != uri@ ==> (final(self).has_doc(u) <==> old(self).has_doc(u)),
            forall|u: Seq<u8>|
                u != uri@ && old(self).has_doc(u) ==> final(self).doc(u) == old(self).doc(u),
    {
        let found = self.find(uri);
        let i = match found {
            None => {
                return Err(SyncError::UnknownDocument);
            },
            Some(i) => i,
        };
        let ghost pre = self.entries@;
        let ghost text0 = pre[i as int].buffer.bytes@;
        proof {
            old(self).lemma_entry_at(i as int);
            assert(changes@.skip(0) =~= changes@);
        }
        let n = changes.len();
        let e = &mut self.entries[i];
        let ghost e0 = *e;
        let mut j: usize = 0;
        while j < n
            invariant
                j <= n,
                n == changes@.len(),
                e.uri@ == e0.uri@,
                e.lang == e0.lang,
                e.stale == e0.stale,
                e.buffer.wf(),
                e.buffer.version == e0.buffer.version,
                e.tree is Some <==> e0.tree is Some,
                e.tree is Some ==> tree_matches(e.tree->Some_0, e.buffer.bytes@),
                apply_batch_spec(e.buffer.bytes@, changes@.skip(j as int)) == apply_batch_spec(
                    text0,
                    changes@,
                ),
                e.buffer.bytes@.len() + batch_text_len(changes@.skip(j as int)) < usize::MAX as int
                    / 2,
            decreases n - j,
        {
            let ghost tcur = e.buffer.bytes@;
            let ghost rest = changes@.skip(j as int);
            proof {
                assert(rest[0] == changes@[j as int]);
                assert(rest.drop_first() =~= changes@.skip(j as int + 1));
                lemma_change_len(tcur, &changes@[j as int]);
                lemma_batch_text_len_nonneg(changes@.skip(j as int + 1));
            }
            let c = &changes[j];
            let applied = get_tree_sitter_edit_from_change(c, &mut e.buffer);
            match applied {
                Ok(ed) => {
                    proof {
                        crate::sync::lemma_descriptor_relates(ed, tcur, &changes@[j as int]);
                    }
                    match &mut e.tree {
                        Some(tr) => {
                            tree_edit(tr, &ed);
                        },
                        None => {},
                    }
                },
                Err(_) => {},
            }
            j = j + 1;
        }
        proof {
            assert(changes@.skip(n as int) =~= Seq::<Change>::empty());
        }
        let new_tree = parse_bytes(parser, &e.buffer.bytes, e.tree.as_ref());
        match new_tree {
            Some(t) => {
                e.tree = Some(t);
                e.stale = false;
            },
            None => {
                e.stale = true;
            },
        }
        e.buffer.version = version;
        proof {
            let post = self.entries@;
            assert(post =~= pre.update(i as int, post[i as int]));
            assert(post[i as int].uri@ == uri@);
            assert forall|k: int| 0 <= k < post.len() && k != i as int implies post[k]
                == pre[k] by {}
            assert(final(self).wf());
            final(self).lemma_entry_at(i as int);
            old(self).lemma_entry_at(i as int);
            assert forall|u: Seq<u8>| u != uri@ && old(self).has_doc(u) implies final(self).has_doc(u) && final(self).doc(u) == old(self).doc(u) by {
                let j2 = old(self).index_of(u);
                assert(0 <= j2 < pre.len() && pre[j2].uri@ == u);
                assert(j2 != i as int);
                assert(post[j2] == pre[j2]);
                assert(final(self).has_doc(u));
                final(self).lemma_entry_at(j2);
            }
            assert forall|u: Seq<u8>| u != uri@ && final(self).has_doc(u) implies old(self).has_doc(u) by {
                let k = final(self).index_of(u);
                assert(0 <= k < post.len() && post[k].uri@ == u);
                assert(k != i as int);
                assert(pre[k].uri@ == u);
            }
        }
        Ok(())
    }

    /// A read-only snapshot of one document: its current text, version,
    /// and, when a tree is stored, the tree copied out for structural
    /// queries.  The copy's encoding is the stored tree's; for a synced
    /// document that is exactly the structure a parse of the current text
    /// from scratch yields.  Returns no data exactly when the URI has no
    /// open entry — in particular always after `close`.
    pub fn snapshot(&self, uri: &Vec<u8>) -> (r: Option<DocSnapshot>)
        requires
            self.wf(),
        ensures
            r is Some <==> self.has_doc(uri@),
            (match r {
                Some(s) => s.text@ == self.doc_text(uri@) && s.version as int == self.doc_version(
                    uri@,
                ) && s.synced == self.doc_synced(uri@) && (match s.root {
                    Some(n) => self.doc(uri@).tree is Some && encode_syntax(n) == copy_shape(
                        shape_of(self.doc(uri@).tree->Some_0),
                    ),
                    None => self.doc(uri@).tree is None,
                }) && (self.doc_synced(uri@) ==> (match s.root {
                    Some(n) => encode_syntax(n) == copy_shape(
                        tree_shape(self.doc_lang(uri@), self.doc_text(uri@)),
                    ),
                    None => false,
                })),
                None => true,
            }),
    {
        let found = self.find(uri);
        match found {
            None => None,
            Some(i) => {
                let e = &self.entries[i];
                let root = match &e.tree {
                    Some(t) => Some(tree_to_syntax(t)),
                    None => None,
                };
                Some(
                    DocSnapshot {
                        text: copy_bytes(&e.buffer.bytes),
                        version: e.buffer.version,
                        root,
                        synced: e.tree.is_some() && !e.stale,
                    },
                )
            },
        }
    }

}

impl Registry {
    /// Runs a tree query against the stored tree of `uri`'s document,
    /// with the document's current text as the capture source.  Returns
    /// the captures — whose ranges and points are the query function of
    /// the document's grammar, tree structure and text — exactly when the
    /// document is open, has a tree, and that function has an answer for
    /// the pattern.
    pub fn query_captures(&self, parser: &ParserHandle, uri: &Vec<u8>, pattern: &str) -> (r:
        Option<Vec<crate::tree::NodeInfo>>)
        requires
            self.wf(),
            self.has_doc(uri@) ==> parser.lang as int == self.doc_lang(uri@),
        ensures
            (match r {
                Some(infos) => self.has_doc(uri@) && self.doc(uri@).tree is Some
                    && crate::tree::query_captures_of(
                    self.doc_lang(uri@),
                    shape_of(self.doc(uri@).tree->Some_0),
                    pattern@,
                    self.doc_text(uri@),
                ) == Some(crate::tree::captures_view(infos@)),
                None => !(self.has_doc(uri@) && self.doc(uri@).tree is Some)
                    || crate::tree::query_captures_of(
                    self.doc_lang(uri@),
                    shape_of(self.doc(uri@).tree->Some_0),
                    pattern@,
                    self.doc_text(uri@),
                ) is None,
            }),
    {
        let found = self.find(uri);
        match found {
            None => None,
            Some(i) => {
                let e = &self.entries[i];
                match &e.tree {
                    Some(t) => crate::tree::query_capture_infos(parser, t, pattern, &e.buffer.bytes),
                    None => None,
                }
            },
        }
    }
}

/// What a query reads: a consistent pair of text and tree taken under the
/// registry's lock, valid on its own after the entry moves on.
pub struct DocSnapshot {
    pub text: Vec<u8>,
    pub version: i64,
    pub root: Option<SyntaxNode>,
    pub synced: bool,
}

/// A batch's total new-text length is never negative.
proof fn lemma_batch_text_len_nonneg(cs: Seq<Change>)
    ensures
        batch_text_len(cs) >= 0,
    decreases cs.len(),
{
    if cs.len() > 0 {
        lemma_batch_text_len_nonneg(cs.drop_first());
    }
}

/// One change event never grows the text by more than its own new text.
proof fn lemma_change_len(t: Seq<u8>, c: &Change)
    ensures
        apply_change_spec(t, c).len() <= t.len() + c.text@.len(),
{
}

/// Incremental/full-parse equivalence: a synced document's stored tree
/// has exactly the structure that parsing the document's current text
/// from scratch yields, whatever sequence of edits led here.  The
/// invariant behind it holds because every descriptor fed to the tree is
/// proved to relate the buffer's texts truthfully; `snapshot` exposes the
/// same fact on the copied root's encoding.
pub proof fn lemma_incremental_matches_full_parse(r: &Registry, uri: Seq<u8>)
    requires
        r.wf(),
        r.has_doc(uri),
        r.doc_synced(uri),
    ensures
        shape_of(r.doc(uri).tree->Some_0) == tree_shape(r.doc_lang(uri), r.doc_text(uri)),
{
    let i = r.index_of(uri);
    assert(r.entries@[i].inv());
}

} // verus!
