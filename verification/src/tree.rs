//! The trusted boundary to the tree-sitter parsing library.
//!
//! Everything the verified core learns about parse trees it learns through
//! the contracts in this module.  A tree's structure is named by the
//! uninterpreted `shape_of`; what parsing produces is named by
//! `tree_shape`, a function of the grammar and the bytes alone, since
//! tree-sitter parses deterministically.  An incremental reparse carries
//! that guarantee only under tree-sitter's documented condition — the
//! hint's reported edits match the new bytes — which the relation
//! `tree_matches` states and `tree_edit` maintains.

use streaming_iterator::StreamingIterator;
use vstd::prelude::*;
use crate::position::Point;

verus! {

#[verifier::external_type_specification]
#[verifier::external_body]
pub struct ExParser(tree_sitter::Parser);

#[verifier::external_type_specification]
#[verifier::external_body]
pub struct ExTree(tree_sitter::Tree);

#[verifier::external_type_specification]
#[verifier::external_body]
pub struct ExNode<'a>(tree_sitter::Node<'a>);

/// The grammar a parser was built with: the TSX grammar of
/// tree-sitter-typescript.
pub const LANG_TSX: u32 = 1;

/// The grammar a parser was built with: the grammar of tree-sitter-scss.
pub const LANG_SCSS: u32 = 2;

/// The structure of a parse tree: its node kinds, named flags, byte
/// ranges, point ranges and grammar field assignments, abstractly.
pub uninterp spec fn shape_of(t: tree_sitter::Tree) -> Seq<int>;

/// The structure of the tree that parsing `text` under grammar `lang`
/// yields.  Tree-sitter parses deterministically: the same grammar and the
/// same bytes give the same tree.
pub uninterp spec fn tree_shape(lang: int, text: Seq<u8>) -> Seq<int>;

/// The tree's accumulated edits agree with `text`: every edit descriptor
/// reported to it since its parse truthfully described one step of the
/// transformation that produced `text`.  This is the condition
/// tree-sitter's documentation places on a reparse hint; only under it
/// does an incremental reparse equal a parse from scratch.
pub uninterp spec fn tree_matches(t: tree_sitter::Tree, text: Seq<u8>) -> bool;

/// What copying a tree with this structure out into plain values gives:
/// the `encode_syntax` encoding of the copy, a function of the tree's
/// structure alone.
pub uninterp spec fn copy_shape(shape: Seq<int>) -> Seq<int>;

/// A parsing engine bound to one grammar.  The engine is stateful and
/// mutable per call; each handle is owned by one owner and never shared.
pub struct ParserHandle {
    pub parser: tree_sitter::Parser,
    pub lang: u32,
}

/// Relies on tree_sitter::Parser::new, Parser::set_language and
/// tree_sitter_typescript::LANGUAGE_TSX: builds an engine for the TSX
/// grammar.
#[verifier::external_body]
pub fn new_tsx_parser() -> (p: ParserHandle)
    ensures
        p.lang == LANG_TSX,
{
    let mut parser = tree_sitter::Parser::new();
    let _ = parser.set_language(&tree_sitter::Language::from(tree_sitter_typescript::LANGUAGE_TSX));
    ParserHandle { parser, lang: LANG_TSX }
}

/// Relies on tree_sitter::Parser::new, Parser::set_language and
/// tree_sitter_scss::language: builds an engine for the SCSS grammar.
#[verifier::external_body]
pub fn new_scss_parser() -> (p: ParserHandle)
    ensures
        p.lang == LANG_SCSS,
{
    let mut parser = tree_sitter::Parser::new();
    let _ = parser.set_language(&tree_sitter_scss::language());
    ParserHandle { parser, lang: LANG_SCSS }
}

/// Relies on tree_sitter::Parser::parse.  A parse from scratch (no hint)
/// yields the structure the handle's grammar assigns the bytes, and the
/// result matches those bytes.  A reparse with a hint carries the same
/// guarantee only when the hint's edits match the bytes handed in — the
/// condition Tree::edit's documentation places on the caller; for a stale
/// or mis-edited hint nothing is claimed.  Returns None when the engine
/// has no language or was cancelled.
#[verifier::external_body]
pub(crate) fn parse_bytes(p: &mut ParserHandle, text: &Vec<u8>, old_tree: Option<&tree_sitter::Tree>) -> (r:
    Option<tree_sitter::Tree>)
    ensures
        final(p).lang == old(p).lang,
        (match (old_tree, r) {
            (None, Some(t)) => shape_of(t) == tree_shape(old(p).lang as int, text@)
                && tree_matches(t, text@),
            (Some(h), Some(t)) => tree_matches(*h, text@) ==> (shape_of(t) == tree_shape(
                old(p).lang as int,
                text@,
            ) && tree_matches(t, text@)),
            (_, None) => true,
        }),
{
    p.parser.parse(text.as_slice(), old_tree)
}

/// Relies on tree_sitter::Tree::edit: shifts the tree's stored node
/// ranges and positions by the described delta.  A tree whose edits so
/// far matched some text, told of a descriptor truthfully relating that
/// text to a new one, matches the new text afterwards.  Nothing is
/// claimed of the edited tree's structure: it is transient ("edited but
/// not reparsed") until the next parse.
#[verifier::external_body]
pub(crate) fn tree_edit(tree: &mut tree_sitter::Tree, ed: &crate::sync::EditDescriptor)
    ensures
        forall|t_old: Seq<u8>, t_new: Seq<u8>|
            tree_matches(*old(tree), t_old) && #[trigger] crate::sync::edit_relates(
                *ed,
                t_old,
                t_new,
            ) ==> tree_matches(*final(tree), t_new),
{
    let ie = tree_sitter::InputEdit {
        start_byte: ed.start_byte,
        old_end_byte: ed.old_end_byte,
        new_end_byte: ed.new_end_byte,
        start_position: tree_sitter::Point { row: ed.start_position.row, column: ed.start_position.column },
        old_end_position: tree_sitter::Point { row: ed.old_end_position.row, column: ed.old_end_position.column },
        new_end_position: tree_sitter::Point { row: ed.new_end_position.row, column: ed.new_end_position.column },
    };
    tree.edit(&ie)
}

/// What one tree node shows of itself: its kind tag, whether the grammar
/// names it, and its byte range and point range.
pub struct NodeInfo {
    pub kind: String,
    pub named: bool,
    pub start_byte: usize,
    pub end_byte: usize,
    pub start_point: Point,
    pub end_point: Point,
}

/// A whole syntax tree copied out into plain values, for the verified
/// structural queries.
pub struct SyntaxNode {
    pub info: NodeInfo,
    pub children: Vec<SyntaxNode>,
}

/// One node summary as integers: an opening marker, the kind's bytes, a
/// separator, the named flag, and the byte and point ranges.  The markers
/// lie outside the byte range, so the encoding determines the summary.
pub open spec fn encode_info(i: NodeInfo) -> Seq<int> {
    seq![-1int] + vstd::utf8::encode_utf8(i.kind@).map_values(|b: u8| b as int) + seq![
        -3int,
        if i.named {
            1int
        } else {
            0int
        },
        i.start_byte as int,
        i.end_byte as int,
        i.start_point.row as int,
        i.start_point.column as int,
        i.end_point.row as int,
        i.end_point.column as int,
    ]
}

/// A copied tree as one integer sequence: each node's summary, its
/// children in order, and a closing marker.
pub open spec fn encode_syntax(n: SyntaxNode) -> Seq<int>
    decreases n, 1int, 0int,
{
    encode_info(n.info) + encode_syntax_children(n, 0) + seq![-2int]
}

/// The encodings of the children from `k` on.
pub open spec fn encode_syntax_children(n: SyntaxNode, k: int) -> Seq<int>
    decreases n, 0int, n.children@.len() - k,
{
    if k < 0 || k >= n.children@.len() {
        Seq::empty()
    } else {
        encode_syntax(n.children@[k]) + encode_syntax_children(n, k + 1)
    }
}

/// What one capture shows: its byte range, start point and end point, as
/// plain integers.
pub open spec fn capture_view(i: NodeInfo) -> ((int, int), (int, int), (int, int)) {
    ((i.start_byte as int, i.end_byte as int), (i.start_point.row as int,
    i.start_point.column as int), (i.end_point.row as int, i.end_point.column as int))
}

/// The captures as plain data, in match order.
pub open spec fn captures_view(infos: Seq<NodeInfo>) -> Seq<((int, int), (int, int), (int, int))> {
    infos.map_values(|i: NodeInfo| capture_view(i))
}

/// What running `pattern` over a tree with this structure, with these
/// source bytes for the predicates, yields: the capture ranges and
/// points in match order — or nothing, when the pattern does not parse
/// under the grammar or the engine has no language.  The query engine is
/// deterministic in these four arguments.
pub uninterp spec fn query_captures_of(
    lang: int,
    shape: Seq<int>,
    pattern: Seq<char>,
    source: Seq<u8>,
) -> Option<Seq<((int, int), (int, int), (int, int))>>;

/// Relies on tree_sitter::Node's accessors (kind, is_named, start_byte,
/// end_byte, start_position, end_position): copies one node's summary out
/// into plain values.
#[verifier::external_body]
fn node_to_info(n: tree_sitter::Node<'_>) -> NodeInfo {
    NodeInfo {
        kind: n.kind().to_owned(),
        named: n.is_named(),
        start_byte: n.start_byte(),
        end_byte: n.end_byte(),
        start_point: Point { row: n.start_position().row, column: n.start_position().column },
        end_point: Point { row: n.end_position().row, column: n.end_position().column },
    }
}

/// Relies on tree_sitter::Node::child_count and Node::child: copies a
/// node and its children out, in order.
#[verifier::external_body]
fn node_to_syntax(n: tree_sitter::Node<'_>) -> SyntaxNode {
    let mut children: Vec<SyntaxNode> = Vec::new();
    for i in 0..n.child_count() {
        if let Some(c) = n.child(i) {
            children.push(node_to_syntax(c));
        }
    }
    SyntaxNode { info: node_to_info(n), children }
}

/// Relies on tree_sitter::Tree::root_node: copies the whole tree out into
/// plain values.  The copy's encoding is a function of the tree's
/// structure alone, so trees of equal structure give equal copies.
#[verifier::external_body]
pub(crate) fn tree_to_syntax(t: &tree_sitter::Tree) -> (r: SyntaxNode)
    ensures
        encode_syntax(r) == copy_shape(shape_of(*t)),
{
    node_to_syntax(t.root_node())
}

/// Relies on tree_sitter::Query::new and QueryCursor::matches: copies out
/// the summary of every capture of the pattern's matches over the whole
/// tree, in match order.  The captures are a function of the grammar, the
/// tree's structure, the pattern and the source bytes; None comes exactly
/// when that function has no answer (an ill-formed pattern, or an engine
/// without a language).
#[verifier::external_body]
pub(crate) fn query_capture_infos(p: &ParserHandle, t: &tree_sitter::Tree, pattern: &str, source: &Vec<u8>) -> (r: Option<Vec<NodeInfo>>)
    ensures
        (match r {
            Some(infos) => query_captures_of(p.lang as int, shape_of(*t), pattern@, source@)
                == Some(captures_view(infos@)),
            None => query_captures_of(p.lang as int, shape_of(*t), pattern@, source@) is None,
        }),
{
    let lang = p.parser.language()?;
    let query = tree_sitter::Query::new(&lang, pattern).ok()?;
    let mut cursor = tree_sitter::QueryCursor::new();
    let mut matches = cursor.matches(&query, t.root_node(), source.as_slice());
    let mut out = Vec::new();
    while let Some(m) = matches.next() {
        for c in m.captures {
            out.push(node_to_info(c.node));
        }
    }
    Some(out)
}

} // verus!
