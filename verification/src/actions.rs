//! Building blocks of the editor actions: word ranges inside a class
//! string, the identifier collection of the component extraction, and the
//! document symbol records.

use vstd::prelude::*;
use vstd::string::{StrSliceExecFns, StringSliceAdditionalSpecFns};
use crate::buffer::slice_bytes;
use crate::position::Point;
use crate::text::bytes_eq;
use crate::syntax::{
    attr_search, attribute_covering, covering_named_node, covering_node_with_parent,
    covering_parent, node_text, node_text_spec, smallest_named_node_covering, AttrSearch,
};
use crate::text::{concat_bytes, is_ws, views_of};
use crate::tree::{NodeInfo, SyntaxNode};

verus! {

/// The maximal runs of non-whitespace bytes from index `i` on, with the
/// start of the currently open run, if one is open.
pub open spec fn word_ranges_from(s: Seq<u8>, i: int, cur: Option<int>) -> Seq<(int, int)>
    decreases s.len() - i,
{
    if i < 0 || i >= s.len() {
        match cur {
            Some(st) => seq![(st, s.len() as int)],
            None => Seq::empty(),
        }
    } else if is_ws(s[i]) {
        match cur {
            Some(st) => seq![(st, i)] + word_ranges_from(s, i + 1, None),
            None => word_ranges_from(s, i + 1, None),
        }
    } else {
        match cur {
            Some(st) => word_ranges_from(s, i + 1, cur),
            None => word_ranges_from(s, i + 1, Some(i)),
        }
    }
}

/// The byte ranges of the whitespace-separated words of `s`.
pub open spec fn word_ranges(s: Seq<u8>) -> Seq<(int, int)> {
    word_ranges_from(s, 0, None)
}

/// Ranges as plain integer pairs.
pub open spec fn ranges_view(v: Seq<(usize, usize)>) -> Seq<(int, int)> {
    v.map_values(|p: (usize, usize)| (p.0 as int, p.1 as int))
}

/// The start of an open run, as the spec sees it.
pub open spec fn cur_view(c: Option<usize>) -> Option<int> {
    match c {
        Some(u) => Some(u as int),
        None => None,
    }
}

/// The byte ranges of the whitespace-separated words of a string: where
/// the class names stand inside a class attribute's value.
pub fn get_word_range_of_string(string: &Vec<u8>) -> (r: Vec<(usize, usize)>)
    ensures
        ranges_view(r@) == word_ranges(string@),
{
    let n = string.len();
    let mut out: Vec<(usize, usize)> = Vec::new();
    let mut cur: Option<usize> = None;
    let mut i: usize = 0;
    proof {
        assert(ranges_view(out@) =~= Seq::<(int, int)>::empty());
    }
    while i < n
        invariant
            i <= n,
            n == string@.len(),
            (match cur {
                Some(st) => st < i,
                None => true,
            }),
            ranges_view(out@) + word_ranges_from(string@, i as int, cur_view(cur)) == word_ranges(
                string@,
            ),
        decreases n - i,
    {
        let b = string[i];
        let ws = b == 32 || b == 9 || b == 10 || b == 12 || b == 13;
        if ws {
            match cur {
                Some(st) => {
                    let ghost prev = out@;
                    out.push((st, i));
                    proof {
                        assert(ranges_view(out@) =~= ranges_view(prev).push((st as int, i as int)));
                    }
                    cur = None;
                },
                None => {},
            }
        } else {
            match cur {
                Some(_) => {},
                None => {
                    cur = Some(i);
                },
            }
        }
        i = i + 1;
    }
    match cur {
        Some(st) => {
            let ghost prev = out@;
            out.push((st, n));
            proof {
                assert(ranges_view(out@) =~= ranges_view(prev).push((st as int, n as int)));
            }
        },
        None => {},
    }
    proof {
        assert(ranges_view(out@) =~= word_ranges(string@));
    }
    out
}

/// The first range of the list containing offset `o`.
pub open spec fn range_containing(rs: Seq<(int, int)>, o: int) -> Option<(int, int)>
    decreases rs.len(),
{
    if rs.len() == 0 {
        None
    } else if rs[0].0 <= o < rs[0].1 {
        Some(rs[0])
    } else {
        range_containing(rs.drop_first(), o)
    }
}

/// Finds the word range the clicked offset falls into.
pub fn word_at(ranges: &Vec<(usize, usize)>, offset: usize) -> (r: Option<(usize, usize)>)
    ensures
        (match r {
            Some(p) => range_containing(ranges_view(ranges@), offset as int) == Some(
                (p.0 as int, p.1 as int),
            ),
            None => range_containing(ranges_view(ranges@), offset as int) is None,
        }),
{
    let n = ranges.len();
    let mut i: usize = 0;
    proof {
        assert(ranges_view(ranges@).skip(0) =~= ranges_view(ranges@));
    }
    while i < n
        invariant
            i <= n,
            n == ranges@.len(),
            range_containing(ranges_view(ranges@), offset as int) == range_containing(
                ranges_view(ranges@).skip(i as int),
                offset as int,
            ),
        decreases n - i,
    {
        let (a, b) = ranges[i];
        proof {
            assert(ranges_view(ranges@).skip(i as int)[0] == ranges_view(ranges@)[i as int]);
            assert(ranges_view(ranges@).skip(i as int).drop_first() =~= ranges_view(
                ranges@,
            ).skip(i as int + 1));
        }
        if a <= offset && offset < b {
            return Some((a, b));
        }
        i = i + 1;
    }
    proof {
        assert(ranges_view(ranges@).skip(n as int) =~= Seq::<(int, int)>::empty());
    }
    None
}

/// One identifier of the selected element, for the component extraction:
/// its byte range, its points, and its text.
pub struct IdentifierNode {
    pub start: usize,
    pub end: usize,
    pub start_point: Point,
    pub end_point: Point,
    pub name: Vec<u8>,
}

/// An identifier record as plain data.
pub open spec fn idents_view(v: Seq<IdentifierNode>) -> Seq<(int, int, Point, Point, Seq<u8>)> {
    v.map_values(
        |i: IdentifierNode| (i.start as int, i.end as int, i.start_point, i.end_point, i.name@),
    )
}

/// The identifier records of the captures, each name kept once, at its
/// first occurrence; `seen` holds the names already taken.
pub open spec fn ident_records_spec(
    infos: Seq<NodeInfo>,
    source: Seq<u8>,
    seen: Set<Seq<u8>>,
) -> Seq<(int, int, Point, Point, Seq<u8>)>
    decreases infos.len(),
{
    if infos.len() == 0 {
        Seq::empty()
    } else {
        let nm = node_text_spec(source, infos[0]);
        if seen.contains(nm) {
            ident_records_spec(infos.drop_first(), source, seen)
        } else {
            seq![
                (infos[0].start_byte as int, infos[0].end_byte as int, infos[0].start_point,
                infos[0].end_point, nm),
            ] + ident_records_spec(infos.drop_first(), source, seen.insert(nm))
        }
    }
}

/// Collects the identifiers of the selected element for the component
/// extraction: each captured identifier once, at its first occurrence,
/// with its byte range, points and text.
pub fn get_identifier_from_jsx_element(infos: &Vec<NodeInfo>, source: &Vec<u8>) -> (r: Vec<
    IdentifierNode,
>)
    ensures
        idents_view(r@) == ident_records_spec(infos@, source@, Set::empty()),
{
    let ghost target = ident_records_spec(infos@, source@, Set::empty());
    let mut out: Vec<IdentifierNode> = Vec::new();
    let mut seen: Vec<Vec<u8>> = Vec::new();
    let ghost mut seen_set: Set<Seq<u8>> = Set::empty();
    let n = infos.len();
    let mut i: usize = 0;
    proof {
        assert(infos@.skip(0) =~= infos@);
        assert(idents_view(out@) =~= Seq::<(int, int, Point, Point, Seq<u8>)>::empty());
    }
    while i < n
        invariant
            i <= n,
            n == infos@.len(),
            target == ident_records_spec(infos@, source@, Set::empty()),
            forall|x: Seq<u8>| seen_set.contains(x) <==> views_of(seen@).contains(x),
            idents_view(out@) + ident_records_spec(infos@.skip(i as int), source@, seen_set)
                == target,
        decreases n - i,
    {
        let ghost rest = infos@.skip(i as int);
        proof {
            assert(rest[0] == infos@[i as int]);
            assert(rest.drop_first() =~= infos@.skip(i as int + 1));
        }
        let info = &infos[i];
        let nm = node_text(source, info);
        if !crate::text::list_contains(&seen, &nm) {
            let ghost prev_out = out@;
            let ghost prev_seen = seen@;
            let rec = IdentifierNode {
                start: info.start_byte,
                end: info.end_byte,
                start_point: info.start_point,
                end_point: info.end_point,
                name: crate::buffer::copy_bytes(&nm),
            };
            out.push(rec);
            seen.push(nm);
            proof {
                assert(!seen_set.contains(node_text_spec(source@, infos@[i as int])));
                assert(idents_view(out@) =~= idents_view(prev_out).push(
                    (infos@[i as int].start_byte as int, infos@[i as int].end_byte as int,
                    infos@[i as int].start_point, infos@[i as int].end_point,
                    node_text_spec(source@, infos@[i as int])),
                ));
                let new_set = seen_set.insert(node_text_spec(source@, infos@[i as int]));
                assert forall|x: Seq<u8>| new_set.contains(x) implies views_of(
                    seen@,
                ).contains(x) by {
                    if x == node_text_spec(source@, infos@[i as int]) {
                        assert(views_of(seen@)[seen@.len() - 1] == x);
                    } else {
                        assert(views_of(prev_seen).contains(x));
                        let w = choose|w: int|
                            0 <= w < views_of(prev_seen).len() && views_of(prev_seen)[w] == x;
                        assert(views_of(seen@)[w] == x);
                    }
                }
                assert forall|x: Seq<u8>| views_of(seen@).contains(x) implies new_set.contains(
                    x,
                ) by {
                    let w = choose|w: int|
                        0 <= w < views_of(seen@).len() && views_of(seen@)[w] == x;
                    if w < seen@.len() - 1 {
                        assert(views_of(prev_seen)[w] == x);
                    } else {
                        assert(x == node_text_spec(source@, infos@[i as int]));
                    }
                }
                seen_set = new_set;
            }
        } else {
            proof {
                assert(seen_set.contains(node_text_spec(source@, infos@[i as int])));
            }
        }
        i = i + 1;
    }
    proof {
        assert(infos@.skip(n as int) =~= Seq::<NodeInfo>::empty());
        assert(idents_view(out@) =~= idents_view(out@) + ident_records_spec(
            infos@.skip(n as int),
            source@,
            seen_set,
        ));
    }
    out
}

/// One document symbol: the component's name with its points.
pub struct SymbolRecord {
    pub name: Vec<u8>,
    pub start_point: Point,
    pub end_point: Point,
}

/// A symbol record as plain data.
pub open spec fn symbols_view(v: Seq<SymbolRecord>) -> Seq<(Seq<u8>, Point, Point)> {
    v.map_values(|s: SymbolRecord| (s.name@, s.start_point, s.end_point))
}

/// The symbols the captures describe: each captured component name with
/// its points, in capture order.
pub open spec fn symbols_spec(infos: Seq<NodeInfo>, source: Seq<u8>) -> Seq<(Seq<u8>, Point, Point)> {
    infos.map_values(
        |i: NodeInfo| (node_text_spec(source, i), i.start_point, i.end_point),
    )
}

/// Turns the component-name captures into document symbols.
pub fn get_component_symbol(infos: &Vec<NodeInfo>, source: &Vec<u8>) -> (r: Vec<SymbolRecord>)
    ensures
        symbols_view(r@) == symbols_spec(infos@, source@),
{
    let ghost target = symbols_spec(infos@, source@);
    let mut out: Vec<SymbolRecord> = Vec::new();
    let n = infos.len();
    let mut i: usize = 0;
    proof {
        assert(symbols_view(out@) =~= target.take(0));
    }
    while i < n
        invariant
            i <= n,
            n == infos@.len(),
            target == symbols_spec(infos@, source@),
            symbols_view(out@) == target.take(i as int),
        decreases n - i,
    {
        let info = &infos[i];
        let name = node_text(source, info);
        out.push(
            SymbolRecord { name, start_point: info.start_point, end_point: info.end_point },
        );
        i = i + 1;
        proof {
            assert(symbols_view(out@) =~= symbols_view(out@.drop_last()).push(
                (node_text_spec(source@, infos@[i - 1]), infos@[i - 1].start_point,
                infos@[i - 1].end_point),
            ));
            assert(target[i - 1] == (node_text_spec(source@, infos@[i - 1]),
            infos@[i - 1].start_point, infos@[i - 1].end_point));
            assert(target.take(i as int) =~= target.take(i as int - 1).push(target[i - 1]));
        }
    }
    proof {
        assert(target.take(n as int) =~= target);
    }
    out
}

/// The bytes of `source[a..b]`, or empty when the range does not fit.
pub open spec fn range_text(source: Seq<u8>, a: int, b: int) -> Seq<u8> {
    if 0 <= a <= b <= source.len() {
        source.subrange(a, b)
    } else {
        Seq::empty()
    }
}

/// The bytes of `source[a..b]`, or empty when the range does not fit.
pub fn range_text_bytes(source: &Vec<u8>, a: usize, b: usize) -> (r: Vec<u8>)
    ensures
        r@ == range_text(source@, a as int, b as int),
{
    if a <= b && b <= source.len() {
        slice_bytes(source, a, b)
    } else {
        Vec::new()
    }
}

/// The rewrite of one member call: both range ends must sit on property
/// identifiers under member expressions; the call then wraps the member
/// expression's object (its first child, the expression before the dot)
/// in a call of the selected property chain.
pub open spec fn member_call_rewrite(
    sp: SyntaxNode,
    ep: SyntaxNode,
    sn: NodeInfo,
    en: NodeInfo,
    source: Seq<u8>,
) -> Option<(Point, Point, Seq<u8>, Seq<u8>)> {
    if sp.info.kind@ == "member_expression"@ && ep.info.kind@ == "member_expression"@
        && sp.children@.len() > 0 && ep.children@.len() > 0 {
        let object_source = node_text_spec(source, sp.children@[0].info);
        let function = range_text(source, sn.start_byte as int, en.end_byte as int);
        let replaced = function + "(".spec_bytes() + object_source + ")".spec_bytes();
        Some(
            (ep.info.start_point, ep.info.end_point, replaced, "call this function -> ".spec_bytes()
            + replaced),
        )
    } else {
        None
    }
}

/// The function-call action for a selection: defined when both selection
/// ends land on property identifiers of member expressions; the action
/// replaces the end's member expression with the selected property chain
/// applied to the start's object.
pub open spec fn fcall_spec(n: SyntaxNode, source: Seq<u8>, sb: int, eb: int) -> Option<
    (Point, Point, Seq<u8>, Seq<u8>),
> {
    match covering_parent(n, sb, sb) {
        Some((Some(sp), snode)) => match covering_parent(n, eb, eb) {
            Some((Some(ep), enode)) => if snode.info.kind@ == "property_identifier"@
                && enode.info.kind@ == "property_identifier"@ {
                member_call_rewrite(sp, ep, snode.info, enode.info, source)
            } else {
                None
            },
            _ => None,
        },
        _ => None,
    }
}

/// One proposed code rewrite: the range it replaces, the new text, and
/// the action's menu title.
pub struct RewriteAction {
    pub start_point: Point,
    pub end_point: Point,
    pub new_text: Vec<u8>,
    pub title: Vec<u8>,
}

/// Builds the "call this function" action for the selection from
/// `start_byte` to `end_byte`, if both ends sit on property identifiers
/// of member expressions.
pub fn get_function_call_action(
    root: &SyntaxNode,
    source: &Vec<u8>,
    start_byte: usize,
    end_byte: usize,
) -> (r: Option<RewriteAction>)
    ensures
        (match r {
            Some(a) => fcall_spec(*root, source@, start_byte as int, end_byte as int) == Some(
                (a.start_point, a.end_point, a.new_text@, a.title@),
            ),
            None => fcall_spec(*root, source@, start_byte as int, end_byte as int) is None,
        }),
{
    let sres = match covering_node_with_parent(root, start_byte, start_byte) {
        Some((Some(sp), snode)) => (sp, snode),
        Some((None, _)) => {
            return None;
        },
        None => {
            return None;
        },
    };
    let eres = match covering_node_with_parent(root, end_byte, end_byte) {
        Some((Some(ep), enode)) => (ep, enode),
        Some((None, _)) => {
            return None;
        },
        None => {
            return None;
        },
    };
    let (sp, snode) = sres;
    let (ep, enode) = eres;
    if !(crate::syntax::kind_is(&snode.info, "property_identifier") && crate::syntax::kind_is(
        &enode.info,
        "property_identifier",
    )) {
        return None;
    }
    if !(crate::syntax::kind_is(&sp.info, "member_expression") && crate::syntax::kind_is(
        &ep.info,
        "member_expression",
    )) {
        return None;
    }
    if sp.children.len() == 0 || ep.children.len() == 0 {
        return None;
    }
    let object_source = node_text(source, &sp.children[0].info);
    let function = range_text_bytes(source, snode.info.start_byte, enode.info.end_byte);
    let open_paren = "(".as_bytes_vec();
    let close_paren = ")".as_bytes_vec();
    let a1 = concat_bytes(&function, &open_paren);
    let a2 = concat_bytes(&a1, &object_source);
    let replaced = concat_bytes(&a2, &close_paren);
    let t1 = "call this function -> ".as_bytes_vec();
    let title = concat_bytes(&t1, &replaced);
    proof {
        assert(replaced@ =~= range_text(source@, snode.info.start_byte as int,
        enode.info.end_byte as int) + "(".spec_bytes() + node_text_spec(
            source@,
            sp.children@[0].info,
        ) + ")".spec_bytes());
    }
    Some(
        RewriteAction {
            start_point: ep.info.start_point,
            end_point: ep.info.end_point,
            new_text: replaced,
            title,
        },
    )
}

/// The element the extraction works on: the smallest named node covering
/// the selection, when it is an element.
pub open spec fn extract_target(n: SyntaxNode, sb: int, eb: int) -> Option<NodeInfo> {
    match crate::syntax::covering_named_node(n, sb, eb) {
        Some(sub) => if sub.info.kind@ == "jsx_element"@ || sub.info.kind@
            == "jsx_self_closing_element"@ {
            Some(sub.info)
        } else {
            None
        },
        None => None,
    }
}

/// What the component extraction hands the editor: the selected element's
/// point range and the identifiers its body mentions, each once.
pub struct ExtractComponentData {
    pub element_start: Point,
    pub element_end: Point,
    pub identifier_node_list: Vec<IdentifierNode>,
}

/// Builds the component-extraction data for a selection: defined exactly
/// when the smallest named node covering it is an element; the identifier
/// captures of that element's body are deduplicated by name.
pub fn extract_component_action(
    root: &SyntaxNode,
    source: &Vec<u8>,
    start_byte: usize,
    end_byte: usize,
    identifier_captures: &Vec<NodeInfo>,
) -> (r: Option<ExtractComponentData>)
    ensures
        (match r {
            Some(d) => extract_target(*root, start_byte as int, end_byte as int) matches Some(info)
                && d.element_start == info.start_point && d.element_end == info.end_point
                && idents_view(d.identifier_node_list@) == ident_records_spec(
                identifier_captures@,
                source@,
                Set::empty(),
            ),
            None => extract_target(*root, start_byte as int, end_byte as int) is None,
        }),
{
    let node = match crate::syntax::smallest_named_node_covering(root, start_byte, end_byte) {
        Some(n) => n,
        None => {
            return None;
        },
    };
    if !(crate::syntax::kind_is(&node.info, "jsx_element") || crate::syntax::kind_is(
        &node.info,
        "jsx_self_closing_element",
    )) {
        return None;
    }
    let identifier_node_list = get_identifier_from_jsx_element(identifier_captures, source);
    Some(
        ExtractComponentData {
            element_start: node.info.start_point,
            element_end: node.info.end_point,
            identifier_node_list,
        },
    )
}

/// Go-to-definition for a class attribute, at the spec level: the click
/// must land on a string fragment or template string whose enclosing
/// attribute names `className` or `class`; the word under the click then
/// names the class whose indexed definitions are returned.
pub open spec fn goto_class_spec(
    root: SyntaxNode,
    source: Seq<u8>,
    click: int,
    ix: Seq<(Seq<u8>, Seq<(Seq<u8>, Point)>)>,
) -> Seq<(Seq<u8>, Point)> {
    match covering_named_node(root, click, click) {
        Some(click_node) => if click_node.info.kind@ == "string_fragment"@
            || click_node.info.kind@ == "template_string"@ {
            match attr_search(root, click, click) {
                Some(AttrSearch::Found(attr)) => if attr.children@.len() > 0
                    && attr.children@[0].info.kind@ == "property_identifier"@ && {
                    let pname = node_text_spec(source, attr.children@[0].info);
                    pname == "className".spec_bytes() || pname == "class".spec_bytes()
                } {
                    let value = node_text_spec(source, click_node.info);
                    match range_containing(
                        word_ranges(value),
                        click - click_node.info.start_byte,
                    ) {
                        Some(w) => crate::scss::lookup_spec(
                            ix,
                            value.subrange(w.0, w.1),
                        ),
                        None => Seq::empty(),
                    }
                } else {
                    Seq::empty()
                },
                _ => Seq::empty(),
            }
        } else {
            Seq::empty()
        },
        None => Seq::empty(),
    }
}

/// Finds every indexed definition of the class name under the click: the
/// click must sit in the string value of a `className`/`class` attribute;
/// the whitespace-separated word around it names the class.
pub fn goto_class_definition(
    root: &SyntaxNode,
    source: &Vec<u8>,
    click: usize,
    index: &crate::scss::ClassIndex,
) -> (r: Vec<(Vec<u8>, Point)>)
    ensures
        crate::scss::entries_view(r@) == goto_class_spec(
            *root,
            source@,
            click as int,
            crate::scss::index_view(index.entries@),
        ),
{
    let empty: Vec<(Vec<u8>, Point)> = Vec::new();
    let click_node = match smallest_named_node_covering(root, click, click) {
        Some(n) => n,
        None => {
            proof {
                assert(crate::scss::entries_view(empty@) =~= Seq::<(Seq<u8>, Point)>::empty());
            }
            return empty;
        },
    };
    if !(crate::syntax::kind_is(&click_node.info, "string_fragment") || crate::syntax::kind_is(
        &click_node.info,
        "template_string",
    )) {
        proof {
            assert(crate::scss::entries_view(empty@) =~= Seq::<(Seq<u8>, Point)>::empty());
        }
        return empty;
    }
    let attr = match attribute_covering(root, click, click) {
        Some(a) => a,
        None => {
            proof {
                assert(crate::scss::entries_view(empty@) =~= Seq::<(Seq<u8>, Point)>::empty());
            }
            return empty;
        },
    };
    if attr.children.len() == 0 || !crate::syntax::kind_is(
        &attr.children[0].info,
        "property_identifier",
    ) {
        proof {
            assert(crate::scss::entries_view(empty@) =~= Seq::<(Seq<u8>, Point)>::empty());
        }
        return empty;
    }
    let pname = node_text(source, &attr.children[0].info);
    let class_name_lit = vstd::string::StrSliceExecFns::as_bytes_vec("className");
    let class_lit = vstd::string::StrSliceExecFns::as_bytes_vec("class");
    if !(bytes_eq(&pname, &class_name_lit) || bytes_eq(&pname, &class_lit)) {
        proof {
            assert(crate::scss::entries_view(empty@) =~= Seq::<(Seq<u8>, Point)>::empty());
        }
        return empty;
    }
    let value = node_text(source, &click_node.info);
    proof {
        crate::syntax::lemma_covering_covers(*root, click as int, click as int);
    }
    let rel = click - click_node.info.start_byte;
    let ranges = get_word_range_of_string(&value);
    let w = match word_at(&ranges, rel) {
        Some(w) => w,
        None => {
            proof {
                assert(crate::scss::entries_view(empty@) =~= Seq::<(Seq<u8>, Point)>::empty());
            }
            return empty;
        },
    };
    proof {
        lemma_word_range_in_bounds(word_ranges(value@), rel as int, w.0 as int, w.1 as int);
        lemma_word_ranges_within(value@, 0, None);
    }
    let name = slice_bytes(&value, w.0, w.1);
    crate::scss::lookup_class(index, &name)
}

/// A word range returned by the lookup contains the offset and is one of
/// the listed ranges.
proof fn lemma_word_range_in_bounds(rs: Seq<(int, int)>, o: int, a: int, b: int)
    requires
        range_containing(rs, o) == Some((a, b)),
    ensures
        a <= o < b,
        rs.contains((a, b)),
    decreases rs.len(),
{
    if rs.len() > 0 {
        if rs[0].0 <= o < rs[0].1 {
            assert(rs[0] == (a, b));
        } else {
            lemma_word_range_in_bounds(rs.drop_first(), o, a, b);
            let q = choose|q: int| 0 <= q < rs.drop_first().len() && rs.drop_first()[q] == (a, b);
            assert(rs[q + 1] == (a, b));
        }
    }
}

/// Every listed word range ends within the string.
proof fn lemma_word_ranges_within(s: Seq<u8>, i: int, cur: Option<int>)
    requires
        0 <= i <= s.len(),
        (match cur {
            Some(st) => 0 <= st,
            None => true,
        }),
    ensures
        forall|q: int|
            0 <= q < word_ranges_from(s, i, cur).len() ==> (#[trigger] word_ranges_from(
                s,
                i,
                cur,
            )[q]).1 <= s.len(),
    decreases s.len() - i,
{
    if i < s.len() {
        let whole = word_ranges_from(s, i, cur);
        if is_ws(s[i]) {
            lemma_word_ranges_within(s, i + 1, None);
            let rest = word_ranges_from(s, i + 1, None);
            match cur {
                Some(st) => {
                    assert(whole =~= seq![(st, i)] + rest);
                    assert forall|q: int| 0 <= q < whole.len() implies (#[trigger] whole[q]).1
                        <= s.len() by {
                        if q > 0 {
                            assert(whole[q] == rest[q - 1]);
                        }
                    }
                },
                None => {
                    assert(whole =~= rest);
                },
            }
        } else {
            match cur {
                Some(_) => {
                    lemma_word_ranges_within(s, i + 1, cur);
                    assert(whole =~= word_ranges_from(s, i + 1, cur));
                },
                None => {
                    lemma_word_ranges_within(s, i + 1, Some(i));
                    assert(whole =~= word_ranges_from(s, i + 1, Some(i)));
                },
            }
        }
    }
}

/// The fresh component name with index `i`: `Component` followed by the
/// index's decimal digits.
pub open spec fn component_name(i: int) -> Seq<u8> {
    "Component".spec_bytes() + crate::pretty::dec_digits(i)
}

/// Decimal renderings are never empty.
proof fn lemma_dec_digits_len(v: int)
    ensures
        crate::pretty::dec_digits(v).len() >= 1,
    decreases v,
{
    if v >= 10 {
        lemma_dec_digits_len(v / 10);
    }
}

/// Distinct non-negative numbers render to distinct digit strings.
proof fn lemma_dec_digits_injective(a: int, b: int)
    requires
        a >= 0,
        b >= 0,
        crate::pretty::dec_digits(a) == crate::pretty::dec_digits(b),
    ensures
        a == b,
    decreases a,
{
    let da = crate::pretty::dec_digits(a);
    let db = crate::pretty::dec_digits(b);
    if a < 10 && b < 10 {
        assert(da[0] == (48 + a) as u8);
        assert(db[0] == (48 + b) as u8);
    } else if a < 10 {
        lemma_dec_digits_len(b / 10);
        assert(da.len() == 1);
        assert(db.len() >= 2);
    } else if b < 10 {
        lemma_dec_digits_len(a / 10);
        assert(db.len() == 1);
        assert(da.len() >= 2);
    } else {
        assert(da.last() == (48 + a % 10) as u8);
        assert(db.last() == (48 + b % 10) as u8);
        assert(a % 10 == b % 10);
        assert(da.drop_last() =~= crate::pretty::dec_digits(a / 10));
        assert(db.drop_last() =~= crate::pretty::dec_digits(b / 10));
        lemma_dec_digits_injective(a / 10, b / 10);
        assert(a == a / 10 * 10 + a % 10);
        assert(b == b / 10 * 10 + b % 10);
    }
}

/// Distinct indices give distinct component names.
proof fn lemma_component_name_injective(a: int, b: int)
    requires
        a >= 0,
        b >= 0,
        component_name(a) == component_name(b),
    ensures
        a == b,
{
    let p = "Component".spec_bytes();
    assert(crate::pretty::dec_digits(a) =~= component_name(a).skip(p.len() as int));
    assert(crate::pretty::dec_digits(b) =~= component_name(b).skip(p.len() as int));
    lemma_dec_digits_injective(a, b);
}

/// A list containing the first `k + 1` component names, all distinct,
/// holds at least `k + 1` entries.
proof fn lemma_component_names_need_room(vs: Seq<Seq<u8>>, k: int)
    requires
        k >= 0,
        forall|j: int| 0 <= j <= k ==> vs.contains(#[trigger] component_name(j)),
    ensures
        vs.len() >= k + 1,
    decreases k,
{
    assert(vs.contains(component_name(k)));
    let w = choose|w: int| 0 <= w < vs.len() && vs[w] == component_name(k);
    if k > 0 {
        let vs2 = vs.remove(w);
        assert forall|j: int| 0 <= j <= k - 1 implies vs2.contains(
            #[trigger] component_name(j),
        ) by {
            assert(vs.contains(component_name(j)));
            let u = choose|u: int| 0 <= u < vs.len() && vs[u] == component_name(j);
            if u == w {
                lemma_component_name_injective(j, k);
                assert(false);
            }
            let u2 = if u < w {
                u
            } else {
                u - 1
            };
            assert(vs2[u2] == vs[u]);
        }
        lemma_component_names_need_room(vs2, k - 1);
    }
}

/// The component name with index `i`, as bytes.
fn component_name_bytes(i: usize) -> (r: Vec<u8>)
    ensures
        r@ == component_name(i as int),
{
    let mut v = vstd::string::StrSliceExecFns::as_bytes_vec("Component");
    crate::pretty::push_decimal(&mut v, i);
    v
}

/// Proposes a name for the extracted component: `Component` followed by
/// the least index whose name no captured declaration already uses.
pub fn get_function_name_from_program(names: &Vec<Vec<u8>>) -> (r: Vec<u8>)
    requires
        names@.len() < usize::MAX as int,
    ensures
        exists|i: int|
            0 <= i && r@ == component_name(i) && !views_of(names@).contains(
                #[trigger] component_name(i),
            ) && (forall|j: int|
                0 <= j < i ==> views_of(names@).contains(#[trigger] component_name(j))),
{
    let n = names.len();
    let mut i: usize = 0;
    while i <= n
        invariant
            i <= n + 1,
            n < usize::MAX,
            n == names@.len(),
            forall|j: int| 0 <= j < i ==> views_of(names@).contains(#[trigger] component_name(j)),
        decreases n + 1 - i,
    {
        let cand = component_name_bytes(i);
        if !crate::text::list_contains(names, &cand) {
            proof {
                assert(!views_of(names@).contains(component_name(i as int)));
            }
            return cand;
        }
        i = i + 1;
    }
    // Unreachable: the names before index n + 1 are pairwise distinct, so
    // a list of n entries cannot hold them all.
    proof {
        lemma_component_names_need_room(views_of(names@), n as int);
        assert(false);
    }
    vstd::pervasive::unreached()
}

/// The symbols that captures with these ranges and points name: the
/// source slice of each byte range with the capture's points.
pub open spec fn symbols_from_captures(
    cs: Seq<((int, int), (int, int), (int, int))>,
    source: Seq<u8>,
) -> Seq<(Seq<u8>, Point, Point)> {
    cs.map_values(
        |c: ((int, int), (int, int), (int, int))|
            (range_text(source, c.0.0, c.0.1), Point { row: c.1.0 as usize, column: c.1.1 as usize },
            Point { row: c.2.0 as usize, column: c.2.1 as usize }),
    )
}

/// The symbol mapping reads only what the capture view carries.
proof fn lemma_symbols_from_views(infos: Seq<NodeInfo>, source: Seq<u8>)
    ensures
        symbols_spec(infos, source) =~= symbols_from_captures(
            crate::tree::captures_view(infos),
            source,
        ),
{
    assert forall|i: int| 0 <= i < infos.len() implies symbols_spec(infos, source)[i]
        == symbols_from_captures(crate::tree::captures_view(infos), source)[i] by {
        let info = infos[i];
        assert(Point {
            row: (info.start_point.row as int) as usize,
            column: (info.start_point.column as int) as usize,
        } == info.start_point);
        assert(Point {
            row: (info.end_point.row as int) as usize,
            column: (info.end_point.column as int) as usize,
        } == info.end_point);
        assert(range_text(source, info.start_byte as int, info.end_byte as int) == node_text_spec(
            source,
            info,
        ));
    }
}

/// The document symbols of one open document: runs the component-name
/// query against its stored tree and maps each capture to the named
/// component's text and points.  Returns a list exactly when the document
/// is open, has a tree, and the query function answers for the
/// component-name pattern; the list is then that answer, symbol by
/// symbol.
pub fn document_symbols(
    reg: &crate::registry::Registry,
    parser: &crate::tree::ParserHandle,
    uri: &Vec<u8>,
) -> (r: Option<Vec<SymbolRecord>>)
    requires
        reg.wf(),
        reg.has_doc(uri@) ==> parser.lang as int == reg.doc_lang(uri@),
    ensures
        (match r {
            Some(syms) => reg.has_doc(uri@) && reg.doc(uri@).tree is Some
                && (match crate::tree::query_captures_of(
                reg.doc_lang(uri@),
                crate::tree::shape_of(reg.doc(uri@).tree->Some_0),
                crate::query_pattern::document_symbol_query_spec(),
                reg.doc_text(uri@),
            ) {
                Some(cs) => symbols_view(syms@) == symbols_from_captures(cs, reg.doc_text(uri@)),
                None => false,
            }),
            None => !(reg.has_doc(uri@) && reg.doc(uri@).tree is Some)
                || crate::tree::query_captures_of(
                reg.doc_lang(uri@),
                crate::tree::shape_of(reg.doc(uri@).tree->Some_0),
                crate::query_pattern::document_symbol_query_spec(),
                reg.doc_text(uri@),
            ) is None,
        }),
{
    let infos = match reg.query_captures(
        parser,
        uri,
        crate::query_pattern::document_symbol_query_pattern(),
    ) {
        Some(infos) => infos,
        None => {
            return None;
        },
    };
    let snap = match reg.snapshot(uri) {
        Some(s) => s,
        None => {
            // query_captures answered, so the document is open.
            proof {
                assert(false);
            }
            return None;
        },
    };
    let syms = get_component_symbol(&infos, &snap.text);
    proof {
        lemma_symbols_from_views(infos@, snap.text@);
    }
    Some(syms)
}

} // verus!
