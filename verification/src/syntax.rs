//! Read-only structural queries over a copied-out syntax tree: the
//! smallest named node covering a byte range, node text slices, and the
//! indented tree rendering.

use vstd::prelude::*;
use vstd::string::StringSliceAdditionalSpecFns;
use crate::tree::{NodeInfo, SyntaxNode};

verus! {

/// The text a node covers, read off the given source: its byte range's
/// slice, or empty when the range does not fit the source.
pub open spec fn node_text_spec(source: Seq<u8>, info: NodeInfo) -> Seq<u8> {
    if info.start_byte <= info.end_byte && info.end_byte <= source.len() {
        source.subrange(info.start_byte as int, info.end_byte as int)
    } else {
        Seq::empty()
    }
}

/// The text a node covers: always the corresponding substring of the
/// source it is read from.
pub fn node_text(source: &Vec<u8>, info: &NodeInfo) -> (r: Vec<u8>)
    ensures
        r@ == node_text_spec(source@, *info),
{
    if info.start_byte <= info.end_byte && info.end_byte <= source.len() {
        crate::buffer::slice_bytes(source, info.start_byte, info.end_byte)
    } else {
        Vec::new()
    }
}

/// Whether this node's kind tag is `name`.
pub fn kind_is(info: &NodeInfo, name: &str) -> (r: bool)
    ensures
        r == (info.kind@ == name@),
{
    let lit: String = name.to_owned();
    info.kind == lit
}

/// Node `n`'s byte range contains `[start, end]`.
pub open spec fn node_covers(info: NodeInfo, start: int, end: int) -> bool {
    info.start_byte <= start && end <= info.end_byte
}

/// The smallest named node of `n` whose byte range contains
/// `[start, end]`, found by descending into the first covering child (in
/// child order) that holds one; `n` itself answers only when no child
/// does and `n` is named.
pub open spec fn covering_named_node(n: SyntaxNode, start: int, end: int) -> Option<SyntaxNode>
    decreases n, 1int, 0int,
{
    if !node_covers(n.info, start, end) {
        None
    } else {
        match covering_in_children(n, 0, start, end) {
            Some(sub) => Some(sub),
            None => if n.info.named {
                Some(n)
            } else {
                None
            },
        }
    }
}

/// The first answer among `n`'s children from index `k` on.
pub open spec fn covering_in_children(n: SyntaxNode, k: int, start: int, end: int) -> Option<
    SyntaxNode,
>
    decreases n, 0int, n.children@.len() - k,
{
    if k < 0 || k >= n.children@.len() {
        None
    } else {
        match covering_named_node(n.children@[k], start, end) {
            Some(sub) => Some(sub),
            None => covering_in_children(n, k + 1, start, end),
        }
    }
}

/// Finds the smallest named node covering the byte range `[start, end]`:
/// the query facade's point lookup.
pub fn smallest_named_node_covering<'a>(n: &'a SyntaxNode, start: usize, end: usize) -> (r: Option<
    &'a SyntaxNode,
>)
    ensures
        (match r {
            Some(sub) => covering_named_node(*n, start as int, end as int) == Some(*sub),
            None => covering_named_node(*n, start as int, end as int) is None,
        }),
    decreases *n,
{
    if !(n.info.start_byte <= start && end <= n.info.end_byte) {
        return None;
    }
    let cnt = n.children.len();
    let mut k: usize = 0;
    while k < cnt
        invariant
            k <= cnt,
            cnt == n.children@.len(),
            node_covers(n.info, start as int, end as int),
            covering_in_children(*n, 0, start as int, end as int) == covering_in_children(
                *n,
                k as int,
                start as int,
                end as int,
            ),
        decreases cnt - k,
    {
        let sub = smallest_named_node_covering(&n.children[k], start, end);
        match sub {
            Some(found) => {
                return Some(found);
            },
            None => {},
        }
        k = k + 1;
    }
    if n.info.named {
        Some(n)
    } else {
        None
    }
}

/// The node's kind names an expression form.
pub open spec fn kind_has_expression(info: NodeInfo) -> bool {
    crate::text::contains_sub(vstd::utf8::encode_utf8(info.kind@), "expression".spec_bytes())
}

/// The node the snippet completions replace: starting from the smallest
/// named node covering `[start, end]`, widened to each enclosing
/// expression that ends at the same byte, as long as the current node is
/// no parse error.
pub open spec fn expression_target(n: SyntaxNode, start: int, end: int) -> Option<NodeInfo>
    decreases n, 1int, 0int,
{
    if !node_covers(n.info, start, end) {
        None
    } else {
        match expression_in_children(n, 0, start, end) {
            Some(info) => if info.kind@ != "ERROR"@ && kind_has_expression(n.info)
                && n.info.end_byte == info.end_byte {
                Some(n.info)
            } else {
                Some(info)
            },
            None => if n.info.named {
                Some(n.info)
            } else {
                None
            },
        }
    }
}

/// The first expression target among `n`'s children from `k` on.
pub open spec fn expression_in_children(n: SyntaxNode, k: int, start: int, end: int) -> Option<
    NodeInfo,
>
    decreases n, 0int, n.children@.len() - k,
{
    if k < 0 || k >= n.children@.len() {
        None
    } else {
        match expression_target(n.children@[k], start, end) {
            Some(info) => Some(info),
            None => expression_in_children(n, k + 1, start, end),
        }
    }
}

/// Finds the expression the completion replaces: the smallest named node
/// at the cursor, widened through enclosing expressions ending at the
/// same byte.
pub fn expand_to_expression<'a>(n: &'a SyntaxNode, start: usize, end: usize) -> (r: Option<
    &'a SyntaxNode,
>)
    ensures
        (match r {
            Some(sub) => expression_target(*n, start as int, end as int) == Some(sub.info),
            None => expression_target(*n, start as int, end as int) is None,
        }),
    decreases *n,
{
    if !(n.info.start_byte <= start && end <= n.info.end_byte) {
        return None;
    }
    let cnt = n.children.len();
    let mut k: usize = 0;
    while k < cnt
        invariant
            k <= cnt,
            cnt == n.children@.len(),
            node_covers(n.info, start as int, end as int),
            expression_in_children(*n, 0, start as int, end as int) == expression_in_children(
                *n,
                k as int,
                start as int,
                end as int,
            ),
        decreases cnt - k,
    {
        let sub = expand_to_expression(&n.children[k], start, end);
        match sub {
            Some(found) => {
                let kind_bytes = vstd::string::StrSliceExecFns::as_bytes_vec(
                    n.info.kind.as_str(),
                );
                let expr_lit = vstd::string::StrSliceExecFns::as_bytes_vec("expression");
                if !kind_is(&found.info, "ERROR") && crate::text::bytes_contains(
                    &kind_bytes,
                    &expr_lit,
                ) && n.info.end_byte == found.info.end_byte {
                    return Some(n);
                } else {
                    return Some(found);
                }
            },
            None => {},
        }
        k = k + 1;
    }
    if n.info.named {
        Some(n)
    } else {
        None
    }
}

/// Where the climb from a node towards its enclosing attribute stands.
pub enum AttrSearch {
    Found(SyntaxNode),
    Climbing,
    Dead,
}

/// A node the climb may not cross: a parse error or a fresh element.
pub open spec fn blocks_climb(info: NodeInfo) -> bool {
    info.kind@ == "ERROR"@ || info.kind@ == "jsx_element"@ || info.kind@
        == "jsx_self_closing_element"@
}

/// The climb's start: the deepest named covering node itself, when it
/// already is the attribute.
pub open spec fn climb_start(n: SyntaxNode) -> AttrSearch {
    if n.info.kind@ == "jsx_attribute"@ {
        AttrSearch::Found(n)
    } else {
        AttrSearch::Climbing
    }
}

/// One climb step to the parent: a blocking parent ends the search, an
/// attribute parent answers it, any other parent keeps climbing.
pub open spec fn climb_step(state: AttrSearch, parent: SyntaxNode) -> AttrSearch {
    match state {
        AttrSearch::Found(a) => AttrSearch::Found(a),
        AttrSearch::Dead => AttrSearch::Dead,
        AttrSearch::Climbing => if blocks_climb(parent.info) {
            AttrSearch::Dead
        } else if parent.info.kind@ == "jsx_attribute"@ {
            AttrSearch::Found(parent)
        } else {
            AttrSearch::Climbing
        },
    }
}

/// The attribute search from the deepest named node covering
/// `[start, end]`, climbed through the ancestors inside `n`'s subtree.
/// Nothing when no named node of the subtree covers the range.
pub open spec fn attr_search(n: SyntaxNode, start: int, end: int) -> Option<AttrSearch>
    decreases n, 1int, 0int,
{
    if !node_covers(n.info, start, end) {
        None
    } else {
        match attr_in_children(n, 0, start, end) {
            Some(state) => Some(climb_step(state, n)),
            None => if n.info.named {
                Some(climb_start(n))
            } else {
                None
            },
        }
    }
}

/// The first child subtree from `k` on holding the search's start.
pub open spec fn attr_in_children(n: SyntaxNode, k: int, start: int, end: int) -> Option<
    AttrSearch,
>
    decreases n, 0int, n.children@.len() - k,
{
    if k < 0 || k >= n.children@.len() {
        None
    } else {
        match attr_search(n.children@[k], start, end) {
            Some(state) => Some(state),
            None => attr_in_children(n, k + 1, start, end),
        }
    }
}

enum AttrClimb<'a> {
    Missing,
    Climbing,
    Dead,
    Found(&'a SyntaxNode),
}

fn attr_climb<'a>(n: &'a SyntaxNode, start: usize, end: usize) -> (r: AttrClimb<'a>)
    ensures
        (match r {
            AttrClimb::Missing => attr_search(*n, start as int, end as int) is None,
            AttrClimb::Climbing => attr_search(*n, start as int, end as int) == Some(
                AttrSearch::Climbing,
            ),
            AttrClimb::Dead => attr_search(*n, start as int, end as int) == Some(AttrSearch::Dead),
            AttrClimb::Found(sub) => attr_search(*n, start as int, end as int) == Some(
                AttrSearch::Found(*sub),
            ),
        }),
    decreases *n,
{
    if !(n.info.start_byte <= start && end <= n.info.end_byte) {
        return AttrClimb::Missing;
    }
    let cnt = n.children.len();
    let mut k: usize = 0;
    while k < cnt
        invariant
            k <= cnt,
            cnt == n.children@.len(),
            node_covers(n.info, start as int, end as int),
            attr_in_children(*n, 0, start as int, end as int) == attr_in_children(
                *n,
                k as int,
                start as int,
                end as int,
            ),
        decreases cnt - k,
    {
        let sub = attr_climb(&n.children[k], start, end);
        match sub {
            AttrClimb::Missing => {},
            AttrClimb::Found(found) => {
                return AttrClimb::Found(found);
            },
            AttrClimb::Dead => {
                return AttrClimb::Dead;
            },
            AttrClimb::Climbing => {
                if kind_is(&n.info, "ERROR") || kind_is(&n.info, "jsx_element") || kind_is(
                    &n.info,
                    "jsx_self_closing_element",
                ) {
                    return AttrClimb::Dead;
                } else if kind_is(&n.info, "jsx_attribute") {
                    return AttrClimb::Found(n);
                } else {
                    return AttrClimb::Climbing;
                }
            },
        }
        k = k + 1;
    }
    if n.info.named {
        if kind_is(&n.info, "jsx_attribute") {
            AttrClimb::Found(n)
        } else {
            AttrClimb::Climbing
        }
    } else {
        AttrClimb::Missing
    }
}

/// Finds the attribute enclosing the deepest named node at the byte range
/// `[start, end]`: the climb from that node towards the root, stopped by
/// a parse error or an enclosing element, as go-to-definition and the
/// class completion ask before reading a class attribute's value.
pub fn attribute_covering<'a>(root: &'a SyntaxNode, start: usize, end: usize) -> (r: Option<
    &'a SyntaxNode,
>)
    ensures
        (match r {
            Some(sub) => attr_search(*root, start as int, end as int) == Some(
                AttrSearch::Found(*sub),
            ),
            None => !(attr_search(*root, start as int, end as int) matches Some(
                AttrSearch::Found(_),
            )),
        }),
{
    match attr_climb(root, start, end) {
        AttrClimb::Found(sub) => Some(sub),
        AttrClimb::Missing => None,
        AttrClimb::Climbing => None,
        AttrClimb::Dead => None,
    }
}

/// The smallest named covering node together with its parent in the
/// walked tree (nothing for the root itself).
pub open spec fn covering_parent(n: SyntaxNode, start: int, end: int) -> Option<
    (Option<SyntaxNode>, SyntaxNode),
>
    decreases n, 1int, 0int,
{
    if !node_covers(n.info, start, end) {
        None
    } else {
        match covering_parent_children(n, 0, start, end) {
            Some(pr) => match pr.0 {
                Some(pp) => Some((Some(pp), pr.1)),
                None => Some((Some(n), pr.1)),
            },
            None => if n.info.named {
                Some((None, n))
            } else {
                None
            },
        }
    }
}

/// The first parent-and-node answer among the children from `k` on.
pub open spec fn covering_parent_children(n: SyntaxNode, k: int, start: int, end: int) -> Option<
    (Option<SyntaxNode>, SyntaxNode),
>
    decreases n, 0int, n.children@.len() - k,
{
    if k < 0 || k >= n.children@.len() {
        None
    } else {
        match covering_parent(n.children@[k], start, end) {
            Some(pr) => Some(pr),
            None => covering_parent_children(n, k + 1, start, end),
        }
    }
}

/// Finds the smallest named node covering `[start, end]` and the node it
/// hangs under.
pub fn covering_node_with_parent<'a>(n: &'a SyntaxNode, start: usize, end: usize) -> (r: Option<
    (Option<&'a SyntaxNode>, &'a SyntaxNode),
>)
    ensures
        (match r {
            Some(pr) => covering_parent(*n, start as int, end as int) == Some(
                ((match pr.0 {
                    Some(p) => Some(*p),
                    None => None,
                }), *pr.1),
            ),
            None => covering_parent(*n, start as int, end as int) is None,
        }),
    decreases *n,
{
    if !(n.info.start_byte <= start && end <= n.info.end_byte) {
        return None;
    }
    let cnt = n.children.len();
    let mut k: usize = 0;
    while k < cnt
        invariant
            k <= cnt,
            cnt == n.children@.len(),
            node_covers(n.info, start as int, end as int),
            covering_parent_children(*n, 0, start as int, end as int) == covering_parent_children(
                *n,
                k as int,
                start as int,
                end as int,
            ),
        decreases cnt - k,
    {
        let sub = covering_node_with_parent(&n.children[k], start, end);
        match sub {
            Some((po, found)) => {
                match po {
                    Some(p) => {
                        return Some((Some(p), found));
                    },
                    None => {
                        return Some((Some(n), found));
                    },
                }
            },
            None => {},
        }
        k = k + 1;
    }
    if n.info.named {
        Some((None, n))
    } else {
        None
    }
}

/// The covering query's answer does cover the asked range.
pub proof fn lemma_covering_covers(n: SyntaxNode, s: int, e: int)
    requires
        covering_named_node(n, s, e) is Some,
    ensures
        node_covers(covering_named_node(n, s, e).unwrap().info, s, e),
    decreases n, 1int, 0int,
{
    if node_covers(n.info, s, e) {
        if covering_in_children(n, 0, s, e) is Some {
            lemma_covering_in_children_covers(n, 0, s, e);
        }
    }
}

proof fn lemma_covering_in_children_covers(n: SyntaxNode, k: int, s: int, e: int)
    requires
        covering_in_children(n, k, s, e) is Some,
    ensures
        node_covers(covering_in_children(n, k, s, e).unwrap().info, s, e),
    decreases n, 0int, n.children@.len() - k,
{
    if 0 <= k < n.children@.len() {
        if covering_named_node(n.children@[k], s, e) is Some {
            lemma_covering_covers(n.children@[k], s, e);
        } else {
            lemma_covering_in_children_covers(n, k + 1, s, e);
        }
    }
}

} // verus!
