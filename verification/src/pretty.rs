//! The indented rendering of a syntax tree that the server pushes to the
//! editor for its tree preview: one line per named node with its kind and
//! its point range.

use vstd::prelude::*;
use vstd::string::StringSliceAdditionalSpecFns;
use vstd::utf8::encode_utf8;
use crate::tree::SyntaxNode;

verus! {

/// The decimal digits of `v`, most significant first.
pub open spec fn dec_digits(v: int) -> Seq<u8>
    decreases v,
{
    if v < 10 {
        seq![(48 + if v >= 0 {
            v
        } else {
            0
        }) as u8]
    } else {
        dec_digits(v / 10).push((48 + v % 10) as u8)
    }
}

/// Appends `v`'s decimal digits.
pub fn push_decimal(out: &mut Vec<u8>, v: usize)
    ensures
        final(out)@ == old(out)@ + dec_digits(v as int),
    decreases v,
{
    if v < 10 {
        out.push(48 + (v as u8));
        proof {
            assert(out@ =~= old(out)@ + dec_digits(v as int));
        }
    } else {
        push_decimal(out, v / 10);
        out.push(48 + ((v % 10) as u8));
        proof {
            assert(out@ =~= old(out)@ + dec_digits(v as int));
        }
    }
}

/// `k` spaces.
pub open spec fn spaces(k: int) -> Seq<u8>
    decreases k,
{
    if k <= 0 {
        Seq::empty()
    } else {
        seq![32u8] + spaces(k - 1)
    }
}

/// The indent level one step deeper, held at the machine's limit.
pub open spec fn next_level(l: int) -> int {
    if l < usize::MAX {
        l + 1
    } else {
        l
    }
}

/// The rendering of one node at an indent level: nothing for an unnamed
/// node; else one line with its kind and point range, then its children
/// one level deeper.
pub open spec fn render_node(n: SyntaxNode, level: int) -> Seq<u8>
    decreases n, 1int, 0int,
{
    if !n.info.named {
        Seq::empty()
    } else {
        spaces(2 * level) + encode_utf8(n.info.kind@) + " [".spec_bytes() + dec_digits(
            n.info.start_point.row as int,
        ) + ", ".spec_bytes() + dec_digits(n.info.start_point.column as int) + "] - [".spec_bytes()
            + dec_digits(n.info.end_point.row as int) + ", ".spec_bytes() + dec_digits(
            n.info.end_point.column as int,
        ) + "] \n".spec_bytes() + render_children(n, 0, next_level(level))
    }
}

/// The renderings of the children from `k` on.
pub open spec fn render_children(n: SyntaxNode, k: int, level: int) -> Seq<u8>
    decreases n, 0int, n.children@.len() - k,
{
    if k < 0 || k >= n.children@.len() {
        Seq::empty()
    } else {
        render_node(n.children@[k], level) + render_children(n, k + 1, level)
    }
}

/// Spaces concatenate by count.
proof fn lemma_spaces_add(a: int, b: int)
    requires
        a >= 0,
        b >= 0,
    ensures
        spaces(a + b) =~= spaces(a) + spaces(b),
    decreases a,
{
    if a > 0 {
        lemma_spaces_add(a - 1, b);
        assert(spaces(a + b) =~= seq![32u8] + spaces(a + b - 1));
        assert(spaces(a) + spaces(b) =~= (seq![32u8] + spaces(a - 1)) + spaces(b));
    }
}

/// Appends `level` indent steps of two spaces each.
fn push_indent(out: &mut Vec<u8>, level: usize)
    ensures
        final(out)@ == old(out)@ + spaces(2 * level as int),
{
    let mut j: usize = 0;
    proof {
        assert(old(out)@ + spaces(0) =~= old(out)@);
    }
    while j < level
        invariant
            j <= level,
            out@ == old(out)@ + spaces(2 * j as int),
        decreases level - j,
    {
        out.push(32);
        out.push(32);
        j = j + 1;
        proof {
            lemma_spaces_add(2 * (j as int - 1), 2);
            assert(spaces(0) =~= Seq::<u8>::empty());
            assert(spaces(1) =~= seq![32u8]);
            assert(spaces(2) =~= seq![32u8, 32u8]);
            assert(out@ =~= old(out)@ + spaces(2 * j as int));
        }
    }
}

/// Appends a literal's bytes.
fn push_lit(out: &mut Vec<u8>, s: &str)
    ensures
        final(out)@ == old(out)@ + s.spec_bytes(),
{
    let v = vstd::string::StrSliceExecFns::as_bytes_vec(s);
    let mut i: usize = 0;
    while i < v.len()
        invariant
            i <= v@.len(),
            v@ == s.spec_bytes(),
            out@ == old(out)@ + v@.subrange(0, i as int),
        decreases v@.len() - i,
    {
        out.push(v[i]);
        i = i + 1;
        proof {
            assert(out@ =~= old(out)@ + v@.subrange(0, i as int));
        }
    }
    proof {
        assert(v@.subrange(0, v@.len() as int) =~= v@);
    }
}

/// Renders one node and its subtree into `out`.
fn render_into(out: &mut Vec<u8>, n: &SyntaxNode, level: usize)
    ensures
        final(out)@ == old(out)@ + render_node(*n, level as int),
    decreases *n,
{
    if !n.info.named {
        proof {
            assert(out@ =~= old(out)@ + render_node(*n, level as int));
        }
        return ;
    }
    push_indent(out, level);
    let kind_bytes = vstd::string::StrSliceExecFns::as_bytes_vec(n.info.kind.as_str());
    let mut ki: usize = 0;
    let ghost mid0 = out@;
    while ki < kind_bytes.len()
        invariant
            ki <= kind_bytes@.len(),
            kind_bytes@ == encode_utf8(n.info.kind@),
            out@ == mid0 + kind_bytes@.subrange(0, ki as int),
        decreases kind_bytes@.len() - ki,
    {
        out.push(kind_bytes[ki]);
        ki = ki + 1;
        proof {
            assert(out@ =~= mid0 + kind_bytes@.subrange(0, ki as int));
        }
    }
    proof {
        assert(kind_bytes@.subrange(0, kind_bytes@.len() as int) =~= kind_bytes@);
    }
    push_lit(out, " [");
    push_decimal(out, n.info.start_point.row);
    push_lit(out, ", ");
    push_decimal(out, n.info.start_point.column);
    push_lit(out, "] - [");
    push_decimal(out, n.info.end_point.row);
    push_lit(out, ", ");
    push_decimal(out, n.info.end_point.column);
    push_lit(out, "] \n");
    let next = if level < usize::MAX {
        level + 1
    } else {
        level
    };
    let cnt = n.children.len();
    let mut k: usize = 0;
    proof {
        assert(out@ + render_children(*n, 0, next as int) =~= old(out)@ + render_node(
            *n,
            level as int,
        ));
    }
    while k < cnt
        invariant
            k <= cnt,
            cnt == n.children@.len(),
            next as int == next_level(level as int),
            out@ + render_children(*n, k as int, next as int) == old(out)@ + render_node(
                *n,
                level as int,
            ),
        decreases cnt - k,
    {
        render_into(out, &n.children[k], next);
        proof {
            assert(render_children(*n, k as int, next as int) =~= render_node(
                n.children@[k as int],
                next as int,
            ) + render_children(*n, k as int + 1, next as int));
        }
        k = k + 1;
    }
    proof {
        assert(render_children(*n, cnt as int, next as int) =~= Seq::<u8>::empty());
        assert(out@ =~= out@ + render_children(*n, cnt as int, next as int));
    }
}

/// The indented rendering of the whole tree, as the editor's tree preview
/// shows it.
pub fn pretty_display(root: &SyntaxNode) -> (r: Vec<u8>)
    ensures
        r@ == render_node(*root, 0),
{
    let mut out: Vec<u8> = Vec::new();
    render_into(&mut out, root, 0);
    proof {
        assert(out@ =~= Seq::<u8>::empty() + render_node(*root, 0));
    }
    out
}

} // verus!
