//! Class-name extraction from style-sheet syntax trees.
//!
//! A rule set's selectors contribute class names; `&`-nested selectors
//! are expanded against the enclosing rule's selector list, which is kept
//! on a trace stack while the rule's block is walked.

use vstd::prelude::*;
use crate::position::Point;
use crate::text::bytes_eq;
use crate::syntax::{kind_is, node_text, node_text_spec};
use crate::text::{
    class_names_of, concat_bytes, join_spec, join_with_space, split_class_names, views_of,
};
use crate::tree::{parse_bytes, tree_to_syntax, NodeInfo, ParserHandle, SyntaxNode};

verus! {

/// The view of a collected position list: each class name with the point
/// of the selector that declared it.
pub open spec fn entries_view(v: Seq<(Vec<u8>, Point)>) -> Seq<(Seq<u8>, Point)> {
    v.map_values(|p: (Vec<u8>, Point)| (p.0@, p.1))
}

/// The view of the trace stack: one selector list per enclosing rule.
pub open spec fn stack_view(st: Seq<Vec<Vec<u8>>>) -> Seq<Seq<Seq<u8>>> {
    st.map_values(|lvl: Vec<Vec<u8>>| views_of(lvl@))
}

/// The enclosing rule's selector list, if any rule encloses.
pub open spec fn top_of(stack: Seq<Seq<Seq<u8>>>) -> Option<Seq<Seq<u8>>> {
    if stack.len() > 0 {
        Some(stack.last())
    } else {
        None
    }
}

/// Each name paired with the declaring selector's point.
pub open spec fn pairs_of(names: Seq<Seq<u8>>, pt: Point) -> Seq<(Seq<u8>, Point)> {
    names.map_values(|n: Seq<u8>| (n, pt))
}

/// The entries a `&`-selector tail contributes: the tail appended to each
/// enclosing selector, split into class names.
pub open spec fn nested_entries(list: Seq<Seq<u8>>, tail: Seq<u8>, pt: Point) -> Seq<
    (Seq<u8>, Point),
>
    decreases list.len(),
{
    if list.len() == 0 {
        Seq::empty()
    } else {
        pairs_of(class_names_of(list[0] + tail), pt) + nested_entries(list.drop_first(), tail, pt)
    }
}

/// The selector list a `&`-selector leaves for nested rules.
pub open spec fn nested_new_top(list: Seq<Seq<u8>>, tail: Seq<u8>) -> Seq<Seq<u8>> {
    list.map_values(|t: Seq<u8>| t + tail)
}

/// Whether a selector's text starts with the nesting marker `&`.
pub open spec fn is_nested(c: Seq<u8>) -> bool {
    c.len() > 0 && c[0] == 38
}

/// The position entries one class selector with text `c` contributes.
pub open spec fn selector_entries(c: Seq<u8>, top: Option<Seq<Seq<u8>>>, pt: Point) -> Seq<
    (Seq<u8>, Point),
> {
    if is_nested(c) {
        match top {
            Some(list) => nested_entries(list, c.skip(1), pt),
            None => Seq::empty(),
        }
    } else {
        pairs_of(class_names_of(c), pt)
    }
}

/// The selector strings one class selector adds to the rule's list.
pub open spec fn selector_new_top(c: Seq<u8>, top: Option<Seq<Seq<u8>>>) -> Seq<Seq<u8>> {
    if is_nested(c) {
        match top {
            Some(list) => nested_new_top(list, c.skip(1)),
            None => Seq::empty(),
        }
    } else {
        seq![c]
    }
}

/// Entries and selector strings contributed by the class selectors among
/// a descendant selector's named children, from child `k` on.
pub open spec fn descendant_walk(
    d: SyntaxNode,
    k: int,
    top: Option<Seq<Seq<u8>>>,
    source: Seq<u8>,
) -> (Seq<(Seq<u8>, Point)>, Seq<Seq<u8>>)
    decreases d, 1int, d.children@.len() - k,
{
    if k < 0 || k >= d.children@.len() {
        (Seq::empty(), Seq::empty())
    } else {
        let c = d.children@[k];
        let rest = descendant_walk(d, k + 1, top, source);
        if c.info.named && c.info.kind@ == "class_selector"@ {
            let text = node_text_spec(source, c.info);
            (
                selector_entries(text, top, c.info.start_point) + rest.0,
                selector_new_top(text, top) + rest.1,
            )
        } else {
            rest
        }
    }
}

/// Entries and selector strings contributed by a rule's selectors node,
/// from named child `k` on: plain class selectors directly, descendant
/// selectors through their own class selectors, joined with spaces.
pub open spec fn selectors_walk(
    sel: SyntaxNode,
    k: int,
    top: Option<Seq<Seq<u8>>>,
    source: Seq<u8>,
) -> (Seq<(Seq<u8>, Point)>, Seq<Seq<u8>>)
    decreases sel, 2int, sel.children@.len() - k,
{
    if k < 0 || k >= sel.children@.len() {
        (Seq::empty(), Seq::empty())
    } else {
        let c = sel.children@[k];
        let rest = selectors_walk(sel, k + 1, top, source);
        if c.info.named && c.info.kind@ == "class_selector"@ {
            let text = node_text_spec(source, c.info);
            (
                selector_entries(text, top, c.info.start_point) + rest.0,
                selector_new_top(text, top) + rest.1,
            )
        } else if c.info.named && c.info.kind@ == "descendant_selector"@ {
            let dr = descendant_walk(c, 0, top, source);
            (dr.0 + rest.0, seq![join_spec(dr.1)] + rest.1)
        } else {
            rest
        }
    }
}

/// All class-name entries below node `n`, with the given stack of
/// enclosing selector lists.
pub open spec fn scss_entries(n: SyntaxNode, stack: Seq<Seq<Seq<u8>>>, source: Seq<u8>) -> Seq<
    (Seq<u8>, Point),
>
    decreases n, 3int, 0int,
{
    if n.info.kind@ == "stylesheet"@ || n.info.kind@ == "block"@ {
        scss_children_entries(n, 0, stack, source)
    } else if n.info.kind@ == "rule_set"@ {
        if n.children@.len() == 0 {
            Seq::empty()
        } else {
            let pr = selectors_walk(n.children@[0], 0, top_of(stack), source);
            pr.0 + if n.children@.len() >= 2 {
                scss_entries(n.children@[1], stack.push(pr.1), source)
            } else {
                Seq::empty()
            }
        }
    } else {
        Seq::empty()
    }
}

/// The entries of `n`'s named children, from child `k` on.
pub open spec fn scss_children_entries(
    n: SyntaxNode,
    k: int,
    stack: Seq<Seq<Seq<u8>>>,
    source: Seq<u8>,
) -> Seq<(Seq<u8>, Point)>
    decreases n, 2int, n.children@.len() - k,
{
    if k < 0 || k >= n.children@.len() {
        Seq::empty()
    } else {
        (if n.children@[k].info.named {
            scss_entries(n.children@[k], stack, source)
        } else {
            Seq::empty()
        }) + scss_children_entries(n, k + 1, stack, source)
    }
}

/// Collects the class names one class selector declares: its text, split
/// at the dots; a `&`-selector first expanded against every selector of
/// the enclosing rule.  Appends the declared names to `position_list` and
/// the selector strings for nested rules to `new_top`.
pub fn traverse_class_selector(
    selector: &SyntaxNode,
    source_code: &Vec<u8>,
    trace_stack: &mut Vec<Vec<Vec<u8>>>,
    position_list: &mut Vec<(Vec<u8>, Point)>,
    new_top: &mut Vec<Vec<u8>>,
)
    ensures
        final(trace_stack)@ == old(trace_stack)@,
        entries_view(final(position_list)@) == entries_view(old(position_list)@)
            + selector_entries(
            node_text_spec(source_code@, selector.info),
            top_of(stack_view(old(trace_stack)@)),
            selector.info.start_point,
        ),
        views_of(final(new_top)@) == views_of(old(new_top)@) + selector_new_top(
            node_text_spec(source_code@, selector.info),
            top_of(stack_view(old(trace_stack)@)),
        ),
{
    let ghost text = node_text_spec(source_code@, selector.info);
    let ghost top = top_of(stack_view(old(trace_stack)@));
    let pt = selector.info.start_point;
    let content = node_text(source_code, &selector.info);
    let nested = content.len() > 0 && content[0] == 38;
    if nested {
        if trace_stack.len() == 0 {
            proof {
                assert(entries_view(position_list@) =~= entries_view(position_list@) + Seq::<
                    (Seq<u8>, Point),
                >::empty());
                assert(views_of(new_top@) =~= views_of(new_top@) + Seq::<Seq<u8>>::empty());
            }
            return ;
        }
        let last = trace_stack.len() - 1;
        let tail = crate::buffer::slice_bytes(&content, 1, content.len());
        proof {
            assert(top == Some(views_of(trace_stack@[last as int]@)));
            assert(tail@ =~= text.skip(1));
        }
        let ghost list = views_of(trace_stack@[last as int]@);
        let cnt = trace_stack[last].len();
        let ghost pl0 = position_list@;
        let ghost nt0 = new_top@;
        let mut t: usize = 0;
        proof {
            assert(list.skip(0) =~= list);
            assert(entries_view(pl0) + nested_entries(list.skip(0), tail@, pt) =~= entries_view(
                pl0,
            ) + nested_entries(list, tail@, pt));
            assert(nested_new_top(list, tail@).skip(0) =~= nested_new_top(list, tail@));
        }
        while t < cnt
            invariant
                t <= cnt,
                cnt == trace_stack@[last as int]@.len(),
                last == trace_stack@.len() - 1,
                trace_stack@ == old(trace_stack)@,
                list == views_of(trace_stack@[last as int]@),
                tail@ == text.skip(1),
                entries_view(position_list@) + nested_entries(list.skip(t as int), tail@, pt)
                    == entries_view(pl0) + nested_entries(list, tail@, pt),
                views_of(new_top@) + nested_new_top(list, tail@).skip(t as int) == views_of(nt0)
                    + nested_new_top(list, tail@),
            decreases cnt - t,
        {
            let class_name = concat_bytes(&trace_stack[last][t], &tail);
            proof {
                assert(list.skip(t as int)[0] == list[t as int]);
                assert(list.skip(t as int).drop_first() =~= list.skip(t as int + 1));
                assert(class_name@ == list[t as int] + tail@);
            }
            let names = split_class_names(&class_name);
            push_pairs(position_list, &names, pt);
            proof {
                assert(nested_entries(list.skip(t as int), tail@, pt) =~= pairs_of(
                    class_names_of(list[t as int] + tail@),
                    pt,
                ) + nested_entries(list.skip(t as int + 1), tail@, pt));
            }
            new_top.push(class_name);
            proof {
                let ntt = nested_new_top(list, tail@);
                assert(views_of(new_top@) =~= views_of(new_top@.drop_last()) + seq![
                    list[t as int] + tail@,
                ]);
                assert(ntt.skip(t as int)[0] == ntt[t as int]);
                assert(ntt[t as int] == list[t as int] + tail@);
                assert(ntt.skip(t as int).drop_first() =~= ntt.skip(t as int + 1));
                assert(seq![list[t as int] + tail@] + ntt.skip(t as int + 1) =~= ntt.skip(
                    t as int,
                ));
            }
            t = t + 1;
        }
        proof {
            assert(list.skip(cnt as int) =~= Seq::<Seq<u8>>::empty());
            assert(entries_view(position_list@) =~= entries_view(position_list@) + nested_entries(
                list.skip(cnt as int),
                tail@,
                pt,
            ));
            assert(nested_new_top(list, tail@).skip(cnt as int) =~= Seq::<Seq<u8>>::empty());
            assert(views_of(new_top@) =~= views_of(new_top@) + nested_new_top(list, tail@).skip(
                cnt as int,
            ));
        }
    } else {
        let names = split_class_names(&content);
        push_pairs(position_list, &names, pt);
        new_top.push(content);
        proof {
            assert(views_of(new_top@) =~= views_of(new_top@.drop_last()) + seq![text]);
        }
    }
}

/// Appends each name, paired with `pt`, to the position list.
fn push_pairs(position_list: &mut Vec<(Vec<u8>, Point)>, names: &Vec<Vec<u8>>, pt: Point)
    ensures
        entries_view(final(position_list)@) == entries_view(old(position_list)@) + pairs_of(
            views_of(names@),
            pt,
        ),
{
    let ghost pl0 = position_list@;
    let n = names.len();
    let mut j: usize = 0;
    proof {
        assert(pairs_of(views_of(names@), pt).take(0) =~= Seq::<(Seq<u8>, Point)>::empty());
        assert(entries_view(pl0) =~= entries_view(pl0) + pairs_of(views_of(names@), pt).take(0));
    }
    while j < n
        invariant
            j <= n,
            n == names@.len(),
            entries_view(position_list@) == entries_view(pl0) + pairs_of(
                views_of(names@),
                pt,
            ).take(j as int),
        decreases n - j,
    {
        let name = crate::buffer::copy_bytes(&names[j]);
        let ghost nv = name@;
        let ghost prev = position_list@;
        position_list.push((name, pt));
        proof {
            let ps = pairs_of(views_of(names@), pt);
            assert(nv == names@[j as int]@);
            assert(position_list@ == prev.push((position_list@.last().0, pt)));
            assert(position_list@.last().0@ == nv);
            assert(entries_view(position_list@) =~= entries_view(prev).push((nv, pt)));
            assert(ps[j as int] == (views_of(names@)[j as int], pt));
            assert(views_of(names@)[j as int] == names@[j as int]@);
            assert(ps.take(j as int + 1) =~= ps.take(j as int).push(ps[j as int]));
            assert(entries_view(position_list@) =~= entries_view(pl0) + ps.take(j as int + 1));
        }
        j = j + 1;
    }
    proof {
        assert(pairs_of(views_of(names@), pt).take(n as int) =~= pairs_of(views_of(names@), pt));
    }
}

/// Walks a style-sheet tree collecting every declared class name with the
/// point of its selector.  The trace stack carries the selector lists of
/// the enclosing rules and is left as it was found.
pub fn traverse_scss_file(
    root: &SyntaxNode,
    trace_stack: &mut Vec<Vec<Vec<u8>>>,
    source_code: &Vec<u8>,
    position_list: &mut Vec<(Vec<u8>, Point)>,
)
    ensures
        final(trace_stack)@ == old(trace_stack)@,
        entries_view(final(position_list)@) == entries_view(old(position_list)@) + scss_entries(
            *root,
            stack_view(old(trace_stack)@),
            source_code@,
        ),
    decreases *root,
{
    let ghost stack = stack_view(old(trace_stack)@);
    if kind_is(&root.info, "stylesheet") || kind_is(&root.info, "block") {
        let cnt = root.children.len();
        let ghost pl0 = position_list@;
        let mut k: usize = 0;
        while k < cnt
            invariant
                k <= cnt,
                cnt == root.children@.len(),
                trace_stack@ == old(trace_stack)@,
                stack == stack_view(trace_stack@),
                entries_view(position_list@) + scss_children_entries(
                    *root,
                    k as int,
                    stack,
                    source_code@,
                ) == entries_view(pl0) + scss_children_entries(*root, 0, stack, source_code@),
            decreases cnt - k,
        {
            let child = &root.children[k];
            if child.info.named {
                traverse_scss_file(child, trace_stack, source_code, position_list);
            }
            proof {
                assert(scss_children_entries(*root, k as int, stack, source_code@)
                    =~= (if root.children@[k as int].info.named {
                    scss_entries(root.children@[k as int], stack, source_code@)
                } else {
                    Seq::<(Seq<u8>, Point)>::empty()
                }) + scss_children_entries(*root, k as int + 1, stack, source_code@));
            }
            k = k + 1;
        }
        proof {
            assert(scss_children_entries(*root, cnt as int, stack, source_code@) =~= Seq::<
                (Seq<u8>, Point),
            >::empty());
            assert(entries_view(position_list@) =~= entries_view(position_list@)
                + scss_children_entries(*root, cnt as int, stack, source_code@));
        }
    } else if kind_is(&root.info, "rule_set") {
        if root.children.len() == 0 {
            proof {
                assert(entries_view(position_list@) =~= entries_view(position_list@) + Seq::<
                    (Seq<u8>, Point),
                >::empty());
            }
            return ;
        }
        let sel = &root.children[0];
        let ghost top = top_of(stack);
        let mut new_top: Vec<Vec<u8>> = Vec::new();
        let scnt = sel.children.len();
        let ghost pl0 = position_list@;
        let mut k: usize = 0;
        proof {
            assert(views_of(new_top@) =~= Seq::<Seq<u8>>::empty());
        }
        while k < scnt
            invariant
                k <= scnt,
                scnt == sel.children@.len(),
                sel == root.children@[0],
                trace_stack@ == old(trace_stack)@,
                stack == stack_view(trace_stack@),
                top == top_of(stack),
                entries_view(position_list@) + selectors_walk(
                    *sel,
                    k as int,
                    top,
                    source_code@,
                ).0 == entries_view(pl0) + selectors_walk(*sel, 0, top, source_code@).0,
                views_of(new_top@) + selectors_walk(*sel, k as int, top, source_code@).1
                    == selectors_walk(*sel, 0, top, source_code@).1,
            decreases scnt - k,
        {
            let child = &sel.children[k];
            let ghost walk_here = selectors_walk(*sel, k as int, top, source_code@);
            let ghost walk_next = selectors_walk(*sel, k as int + 1, top, source_code@);
            if child.info.named && kind_is(&child.info, "class_selector") {
                traverse_class_selector(
                    child,
                    source_code,
                    trace_stack,
                    position_list,
                    &mut new_top,
                );
            } else if child.info.named && kind_is(&child.info, "descendant_selector") {
                let mut cur_new_top: Vec<Vec<u8>> = Vec::new();
                let dcnt = child.children.len();
                let mut d: usize = 0;
                proof {
                    assert(views_of(cur_new_top@) =~= Seq::<Seq<u8>>::empty());
                }
                let ghost pl1 = position_list@;
                while d < dcnt
                    invariant
                        d <= dcnt,
                        dcnt == child.children@.len(),
                        child == sel.children@[k as int],
                        trace_stack@ == old(trace_stack)@,
                        stack == stack_view(trace_stack@),
                        top == top_of(stack),
                        entries_view(position_list@) + descendant_walk(
                            *child,
                            d as int,
                            top,
                            source_code@,
                        ).0 == entries_view(pl1) + descendant_walk(*child, 0, top, source_code@).0,
                        views_of(cur_new_top@) + descendant_walk(
                            *child,
                            d as int,
                            top,
                            source_code@,
                        ).1 == descendant_walk(*child, 0, top, source_code@).1,
                    decreases dcnt - d,
                {
                    let sub = &child.children[d];
                    if sub.info.named && kind_is(&sub.info, "class_selector") {
                        traverse_class_selector(
                            sub,
                            source_code,
                            trace_stack,
                            position_list,
                            &mut cur_new_top,
                        );
                    }
                    proof {
                        let here = descendant_walk(*child, d as int, top, source_code@);
                        let next = descendant_walk(*child, d as int + 1, top, source_code@);
                        assert(here.0 =~= (if child.children@[d as int].info.named
                            && child.children@[d as int].info.kind@ == "class_selector"@ {
                            selector_entries(
                                node_text_spec(source_code@, child.children@[d as int].info),
                                top,
                                child.children@[d as int].info.start_point,
                            )
                        } else {
                            Seq::<(Seq<u8>, Point)>::empty()
                        }) + next.0);
                        assert(here.1 =~= (if child.children@[d as int].info.named
                            && child.children@[d as int].info.kind@ == "class_selector"@ {
                            selector_new_top(
                                node_text_spec(source_code@, child.children@[d as int].info),
                                top,
                            )
                        } else {
                            Seq::<Seq<u8>>::empty()
                        }) + next.1);
                    }
                    d = d + 1;
                }
                proof {
                    assert(descendant_walk(*child, dcnt as int, top, source_code@).0 =~= Seq::<
                        (Seq<u8>, Point),
                    >::empty());
                    assert(descendant_walk(*child, dcnt as int, top, source_code@).1 =~= Seq::<
                        Seq<u8>,
                    >::empty());
                    assert(entries_view(position_list@) =~= entries_view(position_list@)
                        + descendant_walk(*child, dcnt as int, top, source_code@).0);
                    assert(views_of(cur_new_top@) =~= views_of(cur_new_top@) + descendant_walk(
                        *child,
                        dcnt as int,
                        top,
                        source_code@,
                    ).1);
                }
                let joined = join_with_space(&cur_new_top);
                new_top.push(joined);
                proof {
                    assert(views_of(new_top@) =~= views_of(new_top@.drop_last()) + seq![
                        join_spec(descendant_walk(*child, 0, top, source_code@).1),
                    ]);
                }
            }
            proof {
                assert(walk_here.0 =~= (if sel.children@[k as int].info.named
                    && sel.children@[k as int].info.kind@ == "class_selector"@ {
                    selector_entries(
                        node_text_spec(source_code@, sel.children@[k as int].info),
                        top,
                        sel.children@[k as int].info.start_point,
                    )
                } else if sel.children@[k as int].info.named
                    && sel.children@[k as int].info.kind@ == "descendant_selector"@ {
                    descendant_walk(sel.children@[k as int], 0, top, source_code@).0
                } else {
                    Seq::<(Seq<u8>, Point)>::empty()
                }) + walk_next.0);
                assert(walk_here.1 =~= (if sel.children@[k as int].info.named
                    && sel.children@[k as int].info.kind@ == "class_selector"@ {
                    selector_new_top(node_text_spec(source_code@, sel.children@[k as int].info), top)
                } else if sel.children@[k as int].info.named
                    && sel.children@[k as int].info.kind@ == "descendant_selector"@ {
                    seq![join_spec(descendant_walk(sel.children@[k as int], 0, top, source_code@).1)]
                } else {
                    Seq::<Seq<u8>>::empty()
                }) + walk_next.1);
            }
            k = k + 1;
        }
        proof {
            assert(selectors_walk(*sel, scnt as int, top, source_code@).0 =~= Seq::<
                (Seq<u8>, Point),
            >::empty());
            assert(selectors_walk(*sel, scnt as int, top, source_code@).1 =~= Seq::<
                Seq<u8>,
            >::empty());
            assert(entries_view(position_list@) =~= entries_view(position_list@) + selectors_walk(
                *sel,
                scnt as int,
                top,
                source_code@,
            ).0);
            assert(views_of(new_top@) =~= views_of(new_top@) + selectors_walk(
                *sel,
                scnt as int,
                top,
                source_code@,
            ).1);
        }
        trace_stack.push(new_top);
        proof {
            assert(stack_view(trace_stack@) =~= stack.push(
                selectors_walk(*sel, 0, top, source_code@).1,
            ));
        }
        if root.children.len() >= 2 {
            let block = &root.children[1];
            traverse_scss_file(block, trace_stack, source_code, position_list);
        }
        trace_stack.pop();
        proof {
            assert(trace_stack@ =~= old(trace_stack)@);
        }
    } else {
        proof {
            assert(entries_view(position_list@) =~= entries_view(position_list@) + Seq::<
                (Seq<u8>, Point),
            >::empty());
        }
    }
}

/// Parses a style sheet from scratch and copies the tree out for the
/// verified traversal.  On success the copy's encoding is exactly what
/// copying a fresh parse of these bytes gives.  Returns nothing when the
/// engine fails to parse.
pub fn parse_stylesheet(parser: &mut ParserHandle, source: &Vec<u8>) -> (r: Option<SyntaxNode>)
    ensures
        final(parser).lang == old(parser).lang,
        (match r {
            Some(n) => crate::tree::encode_syntax(n) == crate::tree::copy_shape(
                crate::tree::tree_shape(old(parser).lang as int, source@),
            ),
            None => true,
        }),
{
    match parse_bytes(parser, source, None) {
        Some(t) => Some(tree_to_syntax(&t)),
        None => None,
    }
}

/// The bytes of ".scss" (46 is '.', then 's' 'c' 's' 's').
pub open spec fn suffix_scss() -> Seq<u8> {
    seq![46u8, 115u8, 99u8, 115u8, 115u8]
}

/// The bytes of ".css".
pub open spec fn suffix_css() -> Seq<u8> {
    seq![46u8, 99u8, 115u8, 115u8]
}

/// The bytes of ".less".
pub open spec fn suffix_less() -> Seq<u8> {
    seq![46u8, 108u8, 101u8, 115u8, 115u8]
}

pub open spec fn ends_with(s: Seq<u8>, suf: Seq<u8>) -> bool {
    s.len() >= suf.len() && s.skip(s.len() - suf.len()) == suf
}

/// A path the style-sheet index covers: one ending in ".scss", ".css" or
/// ".less".
pub open spec fn is_style_path(s: Seq<u8>) -> bool {
    ends_with(s, suffix_scss()) || ends_with(s, suffix_css()) || ends_with(s, suffix_less())
}

/// Whether `v` ends with the bytes of `suf`.
fn ends_with_bytes(v: &Vec<u8>, suf: &Vec<u8>) -> (r: bool)
    ensures
        r == ends_with(v@, suf@),
{
    let n = v.len();
    let m = suf.len();
    if n < m {
        return false;
    }
    let base = n - m;
    let mut j: usize = 0;
    while j < m
        invariant
            j <= m,
            m <= n,
            base == n - m,
            n == v@.len(),
            m == suf@.len(),
            forall|i: int| 0 <= i < j ==> v@[base + i] == suf@[i],
        decreases m - j,
    {
        if v[base + j] != suf[j] {
            proof {
                assert(v@.skip(base as int)[j as int] == v@[base + j as int]);
            }
            return false;
        }
        j = j + 1;
    }
    proof {
        assert(v@.skip(base as int) =~= suf@);
    }
    true
}

/// The bytes of ".scss".
fn scss_suffix() -> (r: Vec<u8>)
    ensures
        r@ == suffix_scss(),
{
    let mut v: Vec<u8> = Vec::new();
    v.push(46);
    v.push(115);
    v.push(99);
    v.push(115);
    v.push(115);
    proof {
        assert(v@ =~= suffix_scss());
    }
    v
}

/// The bytes of ".css".
fn css_suffix() -> (r: Vec<u8>)
    ensures
        r@ == suffix_css(),
{
    let mut v: Vec<u8> = Vec::new();
    v.push(46);
    v.push(99);
    v.push(115);
    v.push(115);
    proof {
        assert(v@ =~= suffix_css());
    }
    v
}

/// The bytes of ".less".
fn less_suffix() -> (r: Vec<u8>)
    ensures
        r@ == suffix_less(),
{
    let mut v: Vec<u8> = Vec::new();
    v.push(46);
    v.push(108);
    v.push(101);
    v.push(115);
    v.push(115);
    proof {
        assert(v@ =~= suffix_less());
    }
    v
}

/// Whether the path names a style sheet the index covers.
pub fn has_style_suffix(path: &Vec<u8>) -> (r: bool)
    ensures
        r == is_style_path(path@),
{
    let scss = scss_suffix();
    let css = css_suffix();
    let less = less_suffix();
    ends_with_bytes(path, &scss) || ends_with_bytes(path, &css) || ends_with_bytes(path, &less)
}

/// The style-sheet class index: for each indexed file, the class names it
/// declares with their positions.  At most one entry per path.
pub struct ClassIndex {
    pub entries: Vec<(Vec<u8>, Vec<(Vec<u8>, Point)>)>,
}

/// The index as plain data: paths with their class-position lists.
pub open spec fn index_view(es: Seq<(Vec<u8>, Vec<(Vec<u8>, Point)>)>) -> Seq<
    (Seq<u8>, Seq<(Seq<u8>, Point)>),
> {
    es.map_values(|e: (Vec<u8>, Vec<(Vec<u8>, Point)>)| (e.0@, entries_view(e.1@)))
}

impl ClassIndex {
    /// Paths are pairwise distinct.
    pub open spec fn wf(&self) -> bool {
        forall|i: int, j: int|
            0 <= i < j < self.entries@.len() ==> (#[trigger] self.entries@[i]).0@ != (
            #[trigger] self.entries@[j]).0@
    }

    pub open spec fn has_path(&self, path: Seq<u8>) -> bool {
        exists|i: int| 0 <= i < self.entries@.len() && (#[trigger] self.entries@[i]).0@ == path
    }

    pub open spec fn path_index(&self, path: Seq<u8>) -> int {
        choose|i: int| 0 <= i < self.entries@.len() && (#[trigger] self.entries@[i]).0@ == path
    }

    /// The class positions stored for `path`.
    pub open spec fn positions_of(&self, path: Seq<u8>) -> Seq<(Seq<u8>, Point)> {
        entries_view(self.entries@[self.path_index(path)].1@)
    }

    pub fn new() -> (r: ClassIndex)
        ensures
            r.wf(),
            forall|p: Seq<u8>| !r.has_path(p),
    {
        ClassIndex { entries: Vec::new() }
    }

    proof fn lemma_entry_at(&self, i: int)
        requires
            self.wf(),
            0 <= i < self.entries@.len(),
        ensures
            self.has_path(self.entries@[i].0@),
            self.path_index(self.entries@[i].0@) == i,
    {
        let p = self.entries@[i].0@;
        assert(self.has_path(p));
        let j = self.path_index(p);
        if i < j {
            assert(self.entries@[i].0@ != self.entries@[j].0@);
        }
        if j < i {
            assert(self.entries@[j].0@ != self.entries@[i].0@);
        }
    }

    fn find(&self, path: &Vec<u8>) -> (r: Option<usize>)
        requires
            self.wf(),
        ensures
            (match r {
                Some(i) => i < self.entries@.len() && self.entries@[i as int].0@ == path@
                    && self.has_path(path@) && self.path_index(path@) == i,
                None => !self.has_path(path@),
            }),
    {
        let n = self.entries.len();
        let mut i: usize = 0;
        while i < n
            invariant
                i <= n,
                n == self.entries@.len(),
                self.wf(),
                forall|k: int| 0 <= k < i ==> (#[trigger] self.entries@[k]).0@ != path@,
            decreases n - i,
        {
            if bytes_eq(&self.entries[i].0, path) {
                proof {
                    self.lemma_entry_at(i as int);
                }
                return Some(i);
            }
            i = i + 1;
        }
        None
    }

    /// Stores `positions` under `path`, replacing what was there.
    pub fn insert(&mut self, path: Vec<u8>, positions: Vec<(Vec<u8>, Point)>)
        requires
            old(self).wf(),
        ensures
            final(self).wf(),
            final(self).has_path(path@),
            final(self).positions_of(path@) == entries_view(positions@),
            forall|p: Seq<u8>|
                p != path@ ==> (final(self).has_path(p) <==> old(self).has_path(p)),
            forall|p: Seq<u8>|
                p != path@ && old(self).has_path(p) ==> final(self).positions_of(p) == old(self).positions_of(p),
    {
        self.remove_path(&path);
        let ghost mid = *self;
        let ghost pre = self.entries@;
        self.entries.push((path, positions));
        proof {
            let post = self.entries@;
            let n = pre.len() as int;
            assert(post[n].0@ == path@);
            assert(final(self).has_path(path@));
            assert forall|k: int| 0 <= k < n implies pre[k].0@ != path@ by {
                mid.lemma_entry_at(k);
            }
            assert(final(self).wf());
            final(self).lemma_entry_at(n);
            assert forall|p: Seq<u8>| p != path@ && mid.has_path(p) implies final(self).has_path(p)
                && final(self).positions_of(p) == mid.positions_of(p) by {
                let j = mid.path_index(p);
                assert(post[j].0@ == p);
                assert(final(self).has_path(p));
                final(self).lemma_entry_at(j);
                mid.lemma_entry_at(j);
            }
            assert forall|p: Seq<u8>| p != path@ && final(self).has_path(p) implies mid.has_path(
                p,
            ) by {
                let k = final(self).path_index(p);
                assert(post[k].0@ == p);
                assert(k != n);
                assert(pre[k].0@ == p);
            }
        }
    }

    /// Removes whatever is stored under `path`.
    pub fn remove_path(&mut self, path: &Vec<u8>)
        requires
            old(self).wf(),
        ensures
            final(self).wf(),
            !final(self).has_path(path@),
            forall|p: Seq<u8>|
                p != path@ ==> (final(self).has_path(p) <==> old(self).has_path(p)),
            forall|p: Seq<u8>|
                p != path@ && old(self).has_path(p) ==> final(self).positions_of(p) == old(self).positions_of(p),
    {
        let found = self.find(path);
        match found {
            None => {},
            Some(i) => {
                let ghost pre = self.entries@;
                self.entries.remove(i);
                proof {
                    let post = self.entries@;
                    assert forall|k: int| 0 <= k < post.len() implies post[k] == (if k < i as int {
                        pre[k]
                    } else {
                        pre[k + 1]
                    }) by {}
                    assert forall|p: Seq<u8>| p != path@ && old(self).has_path(p) implies final(self).has_path(p) && final(self).positions_of(p) == old(self).positions_of(p) by {
                        let j = old(self).path_index(p);
                        assert(pre[j].0@ == p);
                        assert(j != i as int);
                        let j2 = if j < i as int {
                            j
                        } else {
                            j - 1
                        };
                        assert(post[j2] == pre[j]);
                        assert(final(self).has_path(p));
                        final(self).lemma_entry_at(j2);
                        old(self).lemma_entry_at(j);
                    }
                    assert forall|p: Seq<u8>| p != path@ && final(self).has_path(p) implies old(self).has_path(p) by {
                        let k = final(self).path_index(p);
                        assert(post[k].0@ == p);
                        let k2 = if k < i as int {
                            k
                        } else {
                            k + 1
                        };
                        assert(pre[k2].0@ == p);
                    }
                    assert forall|k: int| 0 <= k < post.len() implies post[k].0@ != path@ by {
                        old(self).lemma_entry_at(i as int);
                        if k < i as int {
                            old(self).lemma_entry_at(k);
                        } else {
                            old(self).lemma_entry_at(k + 1);
                        }
                    }
                }
            },
        }
    }
}

/// Indexes one style-sheet file: for a path ending in ".scss", ".css" or
/// ".less", parses the source, collects its class positions and stores
/// them under the path.  What is stored is exactly the walk's list over a
/// copy of the fresh parse of the source.  Any other path leaves the
/// index untouched, as does a failed parse.
pub fn insert_position_list(
    index: &mut ClassIndex,
    path: &Vec<u8>,
    source: &Vec<u8>,
    parser: &mut ParserHandle,
)
    requires
        old(index).wf(),
    ensures
        final(index).wf(),
        final(parser).lang == old(parser).lang,
        !is_style_path(path@) ==> *final(index) == *old(index),
        is_style_path(path@) ==> (*final(index) == *old(index)) || (final(index).has_path(path@)
            && exists|n: SyntaxNode|
            crate::tree::encode_syntax(n) == crate::tree::copy_shape(
                crate::tree::tree_shape(old(parser).lang as int, source@),
            ) && final(index).positions_of(path@) == scss_entries(
                n,
                Seq::empty(),
                source@,
            )),
        forall|p: Seq<u8>|
            p != path@ ==> (final(index).has_path(p) <==> old(index).has_path(p)),
        forall|p: Seq<u8>|
            p != path@ && old(index).has_path(p) ==> final(index).positions_of(p) == old(index).positions_of(p),
{
    if !has_style_suffix(path) {
        return ;
    }
    let root = match parse_stylesheet(parser, source) {
        Some(r) => r,
        None => {
            return ;
        },
    };
    let mut stack: Vec<Vec<Vec<u8>>> = Vec::new();
    let mut position_list: Vec<(Vec<u8>, Point)> = Vec::new();
    traverse_scss_file(&root, &mut stack, source, &mut position_list);
    proof {
        assert(stack_view(Seq::<Vec<Vec<u8>>>::empty()) =~= Seq::<Seq<Seq<u8>>>::empty());
        assert(entries_view(Seq::<(Vec<u8>, Point)>::empty()) =~= Seq::<(Seq<u8>, Point)>::empty());
    }
    index.insert(crate::buffer::copy_bytes(path), position_list);
}

/// Drops a style-sheet file from the index; paths the index does not
/// cover are ignored.
pub fn remove_position_list(index: &mut ClassIndex, path: &Vec<u8>)
    requires
        old(index).wf(),
    ensures
        final(index).wf(),
        !is_style_path(path@) ==> *final(index) == *old(index),
        is_style_path(path@) ==> !final(index).has_path(path@),
        forall|p: Seq<u8>|
            p != path@ ==> (final(index).has_path(p) <==> old(index).has_path(p)),
        forall|p: Seq<u8>|
            p != path@ && old(index).has_path(p) ==> final(index).positions_of(p) == old(index).positions_of(p),
{
    if has_style_suffix(path) {
        index.remove_path(path);
    }
}

/// The matches of one file for a class name: each position stored under
/// the name, paired with the file's path, in order.
pub open spec fn per_file_matches(path: Seq<u8>, pts: Seq<(Seq<u8>, Point)>, name: Seq<u8>) -> Seq<
    (Seq<u8>, Point),
>
    decreases pts.len(),
{
    if pts.len() == 0 {
        Seq::empty()
    } else {
        (if pts[0].0 == name {
            seq![(path, pts[0].1)]
        } else {
            Seq::empty()
        }) + per_file_matches(path, pts.drop_first(), name)
    }
}

/// All matches of the index for a class name, in index order.
pub open spec fn lookup_spec(ix: Seq<(Seq<u8>, Seq<(Seq<u8>, Point)>)>, name: Seq<u8>) -> Seq<
    (Seq<u8>, Point),
>
    decreases ix.len(),
{
    if ix.len() == 0 {
        Seq::empty()
    } else {
        per_file_matches(ix[0].0, ix[0].1, name) + lookup_spec(ix.drop_first(), name)
    }
}

/// Finds every definition of a class name: for each indexed file, each
/// position declaring that exact name, with the file's path.  This is the
/// core of go-to-definition for class attributes.
pub fn lookup_class(index: &ClassIndex, name: &Vec<u8>) -> (r: Vec<(Vec<u8>, Point)>)
    ensures
        entries_view(r@) == lookup_spec(index_view(index.entries@), name@),
{
    let ghost ix = index_view(index.entries@);
    let mut out: Vec<(Vec<u8>, Point)> = Vec::new();
    let n = index.entries.len();
    let mut i: usize = 0;
    proof {
        assert(ix.skip(0) =~= ix);
    }
    while i < n
        invariant
            i <= n,
            n == index.entries@.len(),
            ix == index_view(index.entries@),
            entries_view(out@) + lookup_spec(ix.skip(i as int), name@) == lookup_spec(ix, name@),
        decreases n - i,
    {
        let ghost pts = ix[i as int].1;
        let m = index.entries[i].1.len();
        let mut j: usize = 0;
        proof {
            assert(ix.skip(i as int)[0] == ix[i as int]);
            assert(ix.skip(i as int).drop_first() =~= ix.skip(i as int + 1));
            assert(pts.skip(0) =~= pts);
        }
        while j < m
            invariant
                j <= m,
                i < n,
                n == index.entries@.len(),
                ix == index_view(index.entries@),
                m == index.entries@[i as int].1@.len(),
                pts == ix[i as int].1,
                entries_view(out@) + per_file_matches(ix[i as int].0, pts.skip(j as int), name@)
                    + lookup_spec(ix.skip(i as int + 1), name@) == lookup_spec(ix, name@),
            decreases m - j,
        {
            proof {
                assert(pts.skip(j as int)[0] == pts[j as int]);
                assert(pts.skip(j as int).drop_first() =~= pts.skip(j as int + 1));
                assert(pts[j as int] == (index.entries@[i as int].1@[j as int].0@,
                index.entries@[i as int].1@[j as int].1));
            }
            if bytes_eq(&index.entries[i].1[j].0, name) {
                let path_copy = crate::buffer::copy_bytes(&index.entries[i].0);
                let ghost prev = out@;
                let pt = index.entries[i].1[j].1;
                out.push((path_copy, pt));
                proof {
                    assert(out@ == prev.push((out@.last().0, pt)));
                    assert(out@.last().0@ == ix[i as int].0);
                    assert(entries_view(out@) =~= entries_view(prev).push((ix[i as int].0, pt)));
                    assert(per_file_matches(ix[i as int].0, pts.skip(j as int), name@) =~= seq![
                        (ix[i as int].0, pts[j as int].1),
                    ] + per_file_matches(ix[i as int].0, pts.skip(j as int + 1), name@));
                    assert(pts[j as int].1 == pt);
                }
            } else {
                proof {
                    assert(per_file_matches(ix[i as int].0, pts.skip(j as int), name@)
                        =~= per_file_matches(ix[i as int].0, pts.skip(j as int + 1), name@));
                }
            }
            j = j + 1;
        }
        proof {
            assert(pts.skip(m as int) =~= Seq::<(Seq<u8>, Point)>::empty());
            assert(per_file_matches(ix[i as int].0, pts.skip(m as int), name@) =~= Seq::<
                (Seq<u8>, Point),
            >::empty());
        }
        i = i + 1;
    }
    proof {
        assert(ix.skip(n as int) =~= Seq::<(Seq<u8>, Seq<(Seq<u8>, Point)>)>::empty());
        assert(entries_view(out@) =~= entries_view(out@) + lookup_spec(ix.skip(n as int), name@));
    }
    out
}

/// The names of one file's entries, in order.
pub open spec fn entry_names(pts: Seq<(Seq<u8>, Point)>) -> Seq<Seq<u8>> {
    pts.map_values(|p: (Seq<u8>, Point)| p.0)
}

/// Every class name the index holds, file by file, in order.
pub open spec fn all_names(ix: Seq<(Seq<u8>, Seq<(Seq<u8>, Point)>)>) -> Seq<Seq<u8>>
    decreases ix.len(),
{
    if ix.len() == 0 {
        Seq::empty()
    } else {
        entry_names(ix[0].1) + all_names(ix.drop_first())
    }
}

/// The names with duplicates dropped: each name once, at its first
/// occurrence; `seen` holds the names already taken.
pub open spec fn dedup_names(names: Seq<Seq<u8>>, seen: Set<Seq<u8>>) -> Seq<Seq<u8>>
    decreases names.len(),
{
    if names.len() == 0 {
        Seq::empty()
    } else if seen.contains(names[0]) {
        dedup_names(names.drop_first(), seen)
    } else {
        seq![names[0]] + dedup_names(names.drop_first(), seen.insert(names[0]))
    }
}

/// Every class name the index knows, each once, in index order: what the
/// class completion offers inside a class attribute.
pub fn all_class_names(index: &ClassIndex) -> (r: Vec<Vec<u8>>)
    ensures
        views_of(r@) == dedup_names(all_names(index_view(index.entries@)), Set::empty()),
{
    let ghost ix = index_view(index.entries@);
    let ghost target = dedup_names(all_names(ix), Set::empty());
    let mut out: Vec<Vec<u8>> = Vec::new();
    let ghost mut seen_set: Set<Seq<u8>> = Set::empty();
    let n = index.entries.len();
    let mut i: usize = 0;
    proof {
        assert(ix.skip(0) =~= ix);
        assert(views_of(out@) =~= Seq::<Seq<u8>>::empty());
        assert(all_names(ix) + Seq::<Seq<u8>>::empty() =~= all_names(ix));
    }
    while i < n
        invariant
            i <= n,
            n == index.entries@.len(),
            ix == index_view(index.entries@),
            target == dedup_names(all_names(ix), Set::empty()),
            forall|x: Seq<u8>| seen_set.contains(x) <==> views_of(out@).contains(x),
            views_of(out@) + dedup_names(all_names(ix.skip(i as int)), seen_set) == target,
        decreases n - i,
    {
        let ghost pts = ix[i as int].1;
        let m = index.entries[i].1.len();
        let mut j: usize = 0;
        proof {
            assert(ix.skip(i as int)[0] == ix[i as int]);
            assert(ix.skip(i as int).drop_first() =~= ix.skip(i as int + 1));
            assert(entry_names(pts).skip(0) =~= entry_names(pts));
            assert(all_names(ix.skip(i as int)) =~= entry_names(pts) + all_names(
                ix.skip(i as int + 1),
            ));
        }
        while j < m
            invariant
                j <= m,
                i < n,
                n == index.entries@.len(),
                ix == index_view(index.entries@),
                m == index.entries@[i as int].1@.len(),
                pts == ix[i as int].1,
                forall|x: Seq<u8>| seen_set.contains(x) <==> views_of(out@).contains(x),
                views_of(out@) + dedup_names(
                    entry_names(pts).skip(j as int) + all_names(ix.skip(i as int + 1)),
                    seen_set,
                ) == target,
            decreases m - j,
        {
            let ghost names_rest = entry_names(pts).skip(j as int) + all_names(
                ix.skip(i as int + 1),
            );
            proof {
                assert(entry_names(pts).skip(j as int)[0] == entry_names(pts)[j as int]);
                assert(entry_names(pts)[j as int] == pts[j as int].0);
                assert(pts[j as int].0 == index.entries@[i as int].1@[j as int].0@);
                assert(names_rest[0] == pts[j as int].0);
                assert(names_rest.drop_first() =~= entry_names(pts).skip(j as int + 1)
                    + all_names(ix.skip(i as int + 1)));
            }
            let nm = &index.entries[i].1[j].0;
            if !crate::text::list_contains(&out, nm) {
                let ghost prev_out = out@;
                out.push(crate::buffer::copy_bytes(nm));
                proof {
                    assert(!seen_set.contains(pts[j as int].0));
                    assert(views_of(out@) =~= views_of(prev_out).push(pts[j as int].0));
                    let new_set = seen_set.insert(pts[j as int].0);
                    assert forall|x: Seq<u8>| new_set.contains(x) implies views_of(
                        out@,
                    ).contains(x) by {
                        if x == pts[j as int].0 {
                            assert(views_of(out@)[out@.len() - 1] == x);
                        } else {
                            let w = choose|w: int|
                                0 <= w < views_of(prev_out).len() && views_of(prev_out)[w] == x;
                            assert(views_of(out@)[w] == x);
                        }
                    }
                    assert forall|x: Seq<u8>| views_of(out@).contains(x) implies new_set.contains(
                        x,
                    ) by {
                        let w = choose|w: int|
                            0 <= w < views_of(out@).len() && views_of(out@)[w] == x;
                        if w < out@.len() - 1 {
                            assert(views_of(prev_out)[w] == x);
                        } else {
                            assert(x == pts[j as int].0);
                        }
                    }
                    seen_set = new_set;
                }
            } else {
                proof {
                    assert(seen_set.contains(pts[j as int].0));
                }
            }
            j = j + 1;
        }
        proof {
            assert(entry_names(pts).skip(m as int) =~= Seq::<Seq<u8>>::empty());
            assert(entry_names(pts).skip(m as int) + all_names(ix.skip(i as int + 1)) =~= all_names(
                ix.skip(i as int + 1),
            ));
        }
        i = i + 1;
    }
    proof {
        assert(ix.skip(n as int) =~= Seq::<(Seq<u8>, Seq<(Seq<u8>, Point)>)>::empty());
        assert(all_names(ix.skip(n as int)) =~= Seq::<Seq<u8>>::empty());
        assert(views_of(out@) =~= views_of(out@) + dedup_names(
            all_names(ix.skip(n as int)),
            seen_set,
        ));
    }
    out
}


/// The last named `class_name` child of a selector, from child `k` on:
/// the name part of a plain class selector.
pub open spec fn last_class_name_child(c: SyntaxNode, k: int) -> Option<NodeInfo>
    decreases c.children@.len() - k,
{
    if k < 0 || k >= c.children@.len() {
        None
    } else {
        match last_class_name_child(c, k + 1) {
            Some(info) => Some(info),
            None => if c.children@[k].info.named && c.children@[k].info.kind@ == "class_name"@ {
                Some(c.children@[k].info)
            } else {
                None
            },
        }
    }
}

/// Whether a named `nesting_selector` child stands at or after child `k`.
pub open spec fn has_nesting_child(c: SyntaxNode, k: int) -> bool
    decreases c.children@.len() - k,
{
    if k < 0 || k >= c.children@.len() {
        false
    } else {
        (c.children@[k].info.named && c.children@[k].info.kind@ == "nesting_selector"@)
            || has_nesting_child(c, k + 1)
    }
}

/// The entries one plain class selector contributes under the simpler
/// walk: its `class_name` part, prefixed by each enclosing selector when
/// a nesting marker stands beside it.
pub open spec fn flat_selector_entries(
    c: SyntaxNode,
    top: Option<Seq<Seq<u8>>>,
    source: Seq<u8>,
) -> Seq<(Seq<u8>, Point)> {
    match last_class_name_child(c, 0) {
        None => Seq::empty(),
        Some(cn) => {
            let content = node_text_spec(source, cn);
            if has_nesting_child(c, 0) {
                match top {
                    Some(list) => pairs_of(nested_new_top(list, content), c.info.start_point),
                    None => Seq::empty(),
                }
            } else {
                seq![(content, c.info.start_point)]
            }
        },
    }
}

/// The selector strings one plain class selector leaves for nested rules
/// under the simpler walk.
pub open spec fn flat_selector_new_top(
    c: SyntaxNode,
    top: Option<Seq<Seq<u8>>>,
    source: Seq<u8>,
) -> Seq<Seq<u8>> {
    match last_class_name_child(c, 0) {
        None => Seq::empty(),
        Some(cn) => {
            let content = node_text_spec(source, cn);
            if has_nesting_child(c, 0) {
                match top {
                    Some(list) => nested_new_top(list, content),
                    None => Seq::empty(),
                }
            } else {
                seq![content]
            }
        },
    }
}

/// Entries and selector strings of a rule's class selectors from named
/// child `k` on, under the simpler walk.
pub open spec fn flat_selectors_walk(
    sel: SyntaxNode,
    k: int,
    top: Option<Seq<Seq<u8>>>,
    source: Seq<u8>,
) -> (Seq<(Seq<u8>, Point)>, Seq<Seq<u8>>)
    decreases sel, 1int, sel.children@.len() - k,
{
    if k < 0 || k >= sel.children@.len() {
        (Seq::empty(), Seq::empty())
    } else {
        let c = sel.children@[k];
        let rest = flat_selectors_walk(sel, k + 1, top, source);
        if c.info.named && c.info.kind@ == "class_selector"@ {
            (flat_selector_entries(c, top, source) + rest.0, flat_selector_new_top(c, top, source)
                + rest.1)
        } else {
            rest
        }
    }
}

/// All class-name entries below `n` under the simpler walk.
pub open spec fn flat_entries(n: SyntaxNode, stack: Seq<Seq<Seq<u8>>>, source: Seq<u8>) -> Seq<
    (Seq<u8>, Point),
>
    decreases n, 3int, 0int,
{
    if n.info.kind@ == "stylesheet"@ || n.info.kind@ == "block"@ {
        flat_children_entries(n, 0, stack, source)
    } else if n.info.kind@ == "rule_set"@ {
        if n.children@.len() == 0 {
            Seq::empty()
        } else {
            let pr = flat_selectors_walk(n.children@[0], 0, top_of(stack), source);
            pr.0 + if n.children@.len() >= 2 {
                flat_entries(n.children@[1], stack.push(pr.1), source)
            } else {
                Seq::empty()
            }
        }
    } else {
        Seq::empty()
    }
}

/// The simpler walk's entries of `n`'s named children, from child `k` on.
pub open spec fn flat_children_entries(
    n: SyntaxNode,
    k: int,
    stack: Seq<Seq<Seq<u8>>>,
    source: Seq<u8>,
) -> Seq<(Seq<u8>, Point)>
    decreases n, 2int, n.children@.len() - k,
{
    if k < 0 || k >= n.children@.len() {
        Seq::empty()
    } else {
        (if n.children@[k].info.named {
            flat_entries(n.children@[k], stack, source)
        } else {
            Seq::empty()
        }) + flat_children_entries(n, k + 1, stack, source)
    }
}

/// Finds the selector's `class_name` part: the last named child so
/// tagged.
fn find_class_name<'a>(c: &'a SyntaxNode) -> (r: Option<&'a NodeInfo>)
    ensures
        (match r {
            Some(info) => last_class_name_child(*c, 0) == Some(*info),
            None => last_class_name_child(*c, 0) is None,
        }),
{
    let cnt = c.children.len();
    let mut best: Option<usize> = None;
    let mut k: usize = 0;
    while k < cnt
        invariant
            k <= cnt,
            cnt == c.children@.len(),
            (match best {
                Some(b) => b < cnt && c.children@[b as int].info.named
                    && c.children@[b as int].info.kind@ == "class_name"@,
                None => true,
            }),
            last_class_name_child(*c, 0) == (match last_class_name_child(*c, k as int) {
                Some(info) => Some(info),
                None => match best {
                    Some(b) => Some(c.children@[b as int].info),
                    None => None,
                },
            }),
        decreases cnt - k,
    {
        let ghost pre = last_class_name_child(*c, k as int);
        if c.children[k].info.named && kind_is(&c.children[k].info, "class_name") {
            best = Some(k);
        }
        k = k + 1;
    }
    match best {
        Some(b) => Some(&c.children[b].info),
        None => None,
    }
}

/// Whether the selector carries a nesting marker.
fn find_nesting(c: &SyntaxNode) -> (r: bool)
    ensures
        r == has_nesting_child(*c, 0),
{
    let cnt = c.children.len();
    let mut k: usize = 0;
    while k < cnt
        invariant
            k <= cnt,
            cnt == c.children@.len(),
            has_nesting_child(*c, 0) == has_nesting_child(*c, k as int),
        decreases cnt - k,
    {
        if c.children[k].info.named && kind_is(&c.children[k].info, "nesting_selector") {
            return true;
        }
        k = k + 1;
    }
    false
}

/// The simpler style-sheet walk: reads only the `class_name` parts of
/// plain class selectors, prefixing them with the enclosing rule's
/// selectors when a nesting marker stands beside them.
/// `traverse_scss_file` supersedes it for compound and descendant
/// selectors.
pub fn traverse(
    root: &SyntaxNode,
    trace_stack: &mut Vec<Vec<Vec<u8>>>,
    source_code: &Vec<u8>,
    position_list: &mut Vec<(Vec<u8>, Point)>,
)
    ensures
        final(trace_stack)@ == old(trace_stack)@,
        entries_view(final(position_list)@) == entries_view(old(position_list)@) + flat_entries(
            *root,
            stack_view(old(trace_stack)@),
            source_code@,
        ),
    decreases *root,
{
    let ghost stack = stack_view(old(trace_stack)@);
    if kind_is(&root.info, "stylesheet") || kind_is(&root.info, "block") {
        let cnt = root.children.len();
        let ghost pl0 = position_list@;
        let mut k: usize = 0;
        while k < cnt
            invariant
                k <= cnt,
                cnt == root.children@.len(),
                trace_stack@ == old(trace_stack)@,
                stack == stack_view(trace_stack@),
                entries_view(position_list@) + flat_children_entries(
                    *root,
                    k as int,
                    stack,
                    source_code@,
                ) == entries_view(pl0) + flat_children_entries(*root, 0, stack, source_code@),
            decreases cnt - k,
        {
            let child = &root.children[k];
            if child.info.named {
                traverse(child, trace_stack, source_code, position_list);
            }
            proof {
                assert(flat_children_entries(*root, k as int, stack, source_code@)
                    =~= (if root.children@[k as int].info.named {
                    flat_entries(root.children@[k as int], stack, source_code@)
                } else {
                    Seq::<(Seq<u8>, Point)>::empty()
                }) + flat_children_entries(*root, k as int + 1, stack, source_code@));
            }
            k = k + 1;
        }
        proof {
            assert(flat_children_entries(*root, cnt as int, stack, source_code@) =~= Seq::<
                (Seq<u8>, Point),
            >::empty());
            assert(entries_view(position_list@) =~= entries_view(position_list@)
                + flat_children_entries(*root, cnt as int, stack, source_code@));
        }
    } else if kind_is(&root.info, "rule_set") {
        if root.children.len() == 0 {
            proof {
                assert(entries_view(position_list@) =~= entries_view(position_list@) + Seq::<
                    (Seq<u8>, Point),
                >::empty());
            }
            return ;
        }
        let sel = &root.children[0];
        let ghost top = top_of(stack);
        let mut new_top: Vec<Vec<u8>> = Vec::new();
        let scnt = sel.children.len();
        let ghost pl0 = position_list@;
        let mut k: usize = 0;
        proof {
            assert(views_of(new_top@) =~= Seq::<Seq<u8>>::empty());
        }
        while k < scnt
            invariant
                k <= scnt,
                scnt == sel.children@.len(),
                sel == root.children@[0],
                trace_stack@ == old(trace_stack)@,
                stack == stack_view(trace_stack@),
                top == top_of(stack),
                entries_view(position_list@) + flat_selectors_walk(
                    *sel,
                    k as int,
                    top,
                    source_code@,
                ).0 == entries_view(pl0) + flat_selectors_walk(*sel, 0, top, source_code@).0,
                views_of(new_top@) + flat_selectors_walk(*sel, k as int, top, source_code@).1
                    == flat_selectors_walk(*sel, 0, top, source_code@).1,
            decreases scnt - k,
        {
            let child = &sel.children[k];
            if child.info.named && kind_is(&child.info, "class_selector") {
                flat_class_selector(child, source_code, trace_stack, position_list, &mut new_top);
            }
            proof {
                let here = flat_selectors_walk(*sel, k as int, top, source_code@);
                let next = flat_selectors_walk(*sel, k as int + 1, top, source_code@);
                assert(here.0 =~= (if sel.children@[k as int].info.named
                    && sel.children@[k as int].info.kind@ == "class_selector"@ {
                    flat_selector_entries(sel.children@[k as int], top, source_code@)
                } else {
                    Seq::<(Seq<u8>, Point)>::empty()
                }) + next.0);
                assert(here.1 =~= (if sel.children@[k as int].info.named
                    && sel.children@[k as int].info.kind@ == "class_selector"@ {
                    flat_selector_new_top(sel.children@[k as int], top, source_code@)
                } else {
                    Seq::<Seq<u8>>::empty()
                }) + next.1);
            }
            k = k + 1;
        }
        proof {
            assert(flat_selectors_walk(*sel, scnt as int, top, source_code@).0 =~= Seq::<
                (Seq<u8>, Point),
            >::empty());
            assert(flat_selectors_walk(*sel, scnt as int, top, source_code@).1 =~= Seq::<
                Seq<u8>,
            >::empty());
            assert(entries_view(position_list@) =~= entries_view(position_list@)
                + flat_selectors_walk(*sel, scnt as int, top, source_code@).0);
            assert(views_of(new_top@) =~= views_of(new_top@) + flat_selectors_walk(
                *sel,
                scnt as int,
                top,
                source_code@,
            ).1);
        }
        trace_stack.push(new_top);
        proof {
            assert(stack_view(trace_stack@) =~= stack.push(
                flat_selectors_walk(*sel, 0, top, source_code@).1,
            ));
        }
        if root.children.len() >= 2 {
            let block = &root.children[1];
            traverse(block, trace_stack, source_code, position_list);
        }
        trace_stack.pop();
        proof {
            assert(trace_stack@ =~= old(trace_stack)@);
        }
    } else {
        proof {
            assert(entries_view(position_list@) =~= entries_view(position_list@) + Seq::<
                (Seq<u8>, Point),
            >::empty());
        }
    }
}

/// One plain class selector of the simpler walk: collects its
/// `class_name` part, expanded against the enclosing selectors when a
/// nesting marker stands beside it.
fn flat_class_selector(
    selector: &SyntaxNode,
    source_code: &Vec<u8>,
    trace_stack: &mut Vec<Vec<Vec<u8>>>,
    position_list: &mut Vec<(Vec<u8>, Point)>,
    new_top: &mut Vec<Vec<u8>>,
)
    ensures
        final(trace_stack)@ == old(trace_stack)@,
        entries_view(final(position_list)@) == entries_view(old(position_list)@)
            + flat_selector_entries(
            *selector,
            top_of(stack_view(old(trace_stack)@)),
            source_code@,
        ),
        views_of(final(new_top)@) == views_of(old(new_top)@) + flat_selector_new_top(
            *selector,
            top_of(stack_view(old(trace_stack)@)),
            source_code@,
        ),
{
    let ghost top = top_of(stack_view(old(trace_stack)@));
    let pt = selector.info.start_point;
    let cn = match find_class_name(selector) {
        Some(info) => info,
        None => {
            proof {
                assert(entries_view(position_list@) =~= entries_view(position_list@) + Seq::<
                    (Seq<u8>, Point),
                >::empty());
                assert(views_of(new_top@) =~= views_of(new_top@) + Seq::<Seq<u8>>::empty());
            }
            return ;
        },
    };
    let content = node_text(source_code, cn);
    if find_nesting(selector) {
        if trace_stack.len() == 0 {
            proof {
                assert(entries_view(position_list@) =~= entries_view(position_list@) + Seq::<
                    (Seq<u8>, Point),
                >::empty());
                assert(views_of(new_top@) =~= views_of(new_top@) + Seq::<Seq<u8>>::empty());
            }
            return ;
        }
        let last = trace_stack.len() - 1;
        proof {
            assert(top == Some(views_of(trace_stack@[last as int]@)));
        }
        let ghost list = views_of(trace_stack@[last as int]@);
        let cnt = trace_stack[last].len();
        let ghost pl0 = position_list@;
        let ghost nt0 = new_top@;
        let mut t: usize = 0;
        proof {
            assert(nested_new_top(list, content@).skip(0) =~= nested_new_top(list, content@));
            assert(pairs_of(nested_new_top(list, content@), pt).skip(0) =~= pairs_of(
                nested_new_top(list, content@),
                pt,
            ));
        }
        while t < cnt
            invariant
                t <= cnt,
                cnt == trace_stack@[last as int]@.len(),
                last == trace_stack@.len() - 1,
                trace_stack@ == old(trace_stack)@,
                list == views_of(trace_stack@[last as int]@),
                content@ == node_text_spec(source_code@, last_class_name_child(*selector, 0)->Some_0),
                entries_view(position_list@) + pairs_of(nested_new_top(list, content@), pt).skip(
                    t as int,
                ) == entries_view(pl0) + pairs_of(nested_new_top(list, content@), pt),
                views_of(new_top@) + nested_new_top(list, content@).skip(t as int) == views_of(nt0)
                    + nested_new_top(list, content@),
            decreases cnt - t,
        {
            let name = concat_bytes(&trace_stack[last][t], &content);
            let ghost prev_pl = position_list@;
            let ghost prev_nt = new_top@;
            let name_for_top = crate::buffer::copy_bytes(&name);
            position_list.push((name, pt));
            new_top.push(name_for_top);
            proof {
                let ps = pairs_of(nested_new_top(list, content@), pt);
                let ntt = nested_new_top(list, content@);
                assert(ntt[t as int] == list[t as int] + content@);
                assert(position_list@.last().0@ == list[t as int] + content@);
                assert(entries_view(position_list@) =~= entries_view(prev_pl).push(
                    (list[t as int] + content@, pt),
                ));
                assert(ps[t as int] == (ntt[t as int], pt));
                assert(ps.skip(t as int)[0] == ps[t as int]);
                assert(ps.skip(t as int).drop_first() =~= ps.skip(t as int + 1));
                assert(views_of(new_top@) =~= views_of(prev_nt).push(list[t as int] + content@));
                assert(ntt.skip(t as int)[0] == ntt[t as int]);
                assert(ntt.skip(t as int).drop_first() =~= ntt.skip(t as int + 1));
            }
            t = t + 1;
        }
        proof {
            assert(nested_new_top(list, content@).skip(cnt as int) =~= Seq::<Seq<u8>>::empty());
            assert(pairs_of(nested_new_top(list, content@), pt).skip(cnt as int) =~= Seq::<
                (Seq<u8>, Point),
            >::empty());
            assert(entries_view(position_list@) =~= entries_view(position_list@) + pairs_of(
                nested_new_top(list, content@),
                pt,
            ).skip(cnt as int));
            assert(views_of(new_top@) =~= views_of(new_top@) + nested_new_top(
                list,
                content@,
            ).skip(cnt as int));
        }
    } else {
        let ghost prev_pl = position_list@;
        let ghost prev_nt = new_top@;
        let name_for_top = crate::buffer::copy_bytes(&content);
        position_list.push((content, pt));
        new_top.push(name_for_top);
        proof {
            assert(entries_view(position_list@) =~= entries_view(prev_pl).push(
                (node_text_spec(source_code@, last_class_name_child(*selector, 0)->Some_0), pt),
            ));
            assert(views_of(new_top@) =~= views_of(prev_nt).push(
                node_text_spec(source_code@, last_class_name_child(*selector, 0)->Some_0),
            ));
        }
    }
}

} // verus!
