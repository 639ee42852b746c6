//! Byte-string utilities for selector handling: trimming ASCII
//! whitespace, splitting a compound class selector at the dots, and
//! joining selector parts with spaces.

use vstd::prelude::*;
use crate::buffer::{copy_bytes, slice_bytes};

verus! {

/// Byte-wise equality of two byte strings.
pub fn bytes_eq(a: &Vec<u8>, b: &Vec<u8>) -> (r: bool)
    ensures
        r == (a@ == b@),
{
    if a.len() != b.len() {
        assert(a@ != b@);
        return false;
    }
    let n = a.len();
    let mut i: usize = 0;
    while i < n
        invariant
            i <= n,
            n == a@.len(),
            n == b@.len(),
            forall|k: int| 0 <= k < i ==> a@[k] == b@[k],
        decreases n - i,
    {
        if a[i] != b[i] {
            return false;
        }
        i = i + 1;
    }
    assert(a@ =~= b@);
    true
}

/// ASCII whitespace: space, tab, line feed, form feed, carriage return.
pub open spec fn is_ws(b: u8) -> bool {
    b == 32 || b == 9 || b == 10 || b == 12 || b == 13
}

/// The number of whitespace bytes at the front.
pub open spec fn lead_ws(s: Seq<u8>) -> int
    decreases s.len(),
{
    if s.len() > 0 && is_ws(s[0]) {
        1 + lead_ws(s.drop_first())
    } else {
        0
    }
}

/// The number of whitespace bytes at the back.
pub open spec fn trail_ws(s: Seq<u8>) -> int
    decreases s.len(),
{
    if s.len() > 0 && is_ws(s.last()) {
        1 + trail_ws(s.drop_last())
    } else {
        0
    }
}

/// `s` without its leading and trailing ASCII whitespace.
pub open spec fn trim_spec(s: Seq<u8>) -> Seq<u8> {
    if lead_ws(s) == s.len() {
        Seq::empty()
    } else {
        s.subrange(lead_ws(s), s.len() - trail_ws(s))
    }
}

proof fn lemma_lead_ws(s: Seq<u8>)
    ensures
        0 <= lead_ws(s) <= s.len(),
        forall|j: int| 0 <= j < lead_ws(s) ==> is_ws(s[j]),
        lead_ws(s) < s.len() ==> !is_ws(s[lead_ws(s)]),
    decreases s.len(),
{
    if s.len() > 0 && is_ws(s[0]) {
        lemma_lead_ws(s.drop_first());
        assert forall|j: int| 0 <= j < lead_ws(s) implies is_ws(s[j]) by {
            if j > 0 {
                assert(s.drop_first()[j - 1] == s[j]);
            }
        }
        if lead_ws(s) < s.len() {
            assert(s.drop_first()[lead_ws(s) - 1] == s[lead_ws(s)]);
        }
    }
}

proof fn lemma_lead_ws_unique(s: Seq<u8>, a: int)
    requires
        0 <= a <= s.len(),
        forall|j: int| 0 <= j < a ==> is_ws(s[j]),
        a < s.len() ==> !is_ws(s[a]),
    ensures
        lead_ws(s) == a,
    decreases s.len(),
{
    if s.len() == 0 {
    } else if a == 0 {
    } else {
        assert(is_ws(s[0]));
        assert forall|j: int| 0 <= j < a - 1 implies is_ws(s.drop_first()[j]) by {
            assert(s.drop_first()[j] == s[j + 1]);
        }
        if a - 1 < s.len() - 1 {
            assert(s.drop_first()[a - 1] == s[a]);
        }
        lemma_lead_ws_unique(s.drop_first(), a - 1);
    }
}

proof fn lemma_trail_ws_unique(s: Seq<u8>, t: int)
    requires
        0 <= t <= s.len(),
        forall|j: int| s.len() - t <= j < s.len() ==> is_ws(s[j]),
        t < s.len() ==> !is_ws(s[s.len() - t - 1]),
    ensures
        trail_ws(s) == t,
    decreases s.len(),
{
    if s.len() == 0 {
    } else if t == 0 {
        if is_ws(s.last()) {
            assert(!is_ws(s[s.len() - 1]));
        }
    } else {
        assert(is_ws(s.last()));
        let d = s.drop_last();
        assert forall|j: int| d.len() - (t - 1) <= j < d.len() implies is_ws(d[j]) by {
            assert(d[j] == s[j]);
        }
        if t - 1 < d.len() {
            assert(d[d.len() - (t - 1) - 1] == s[s.len() - t - 1]);
        }
        lemma_trail_ws_unique(d, t - 1);
    }
}

/// Whether one byte is ASCII whitespace.
pub fn is_ws_byte(b: u8) -> (r: bool)
    ensures
        r == is_ws(b),
{
    b == 32 || b == 9 || b == 10 || b == 12 || b == 13
}

/// Strips leading and trailing ASCII whitespace.
pub fn trim_bytes(v: &Vec<u8>) -> (r: Vec<u8>)
    ensures
        r@ == trim_spec(v@),
{
    let n = v.len();
    let mut a: usize = 0;
    while a < n && is_ws_byte(v[a])
        invariant
            a <= n,
            n == v@.len(),
            forall|j: int| 0 <= j < a ==> is_ws(v@[j]),
        decreases n - a,
    {
        a = a + 1;
    }
    if a == n {
        proof {
            lemma_lead_ws_unique(v@, n as int);
        }
        let empty: Vec<u8> = Vec::new();
        return empty;
    }
    proof {
        lemma_lead_ws_unique(v@, a as int);
    }
    let mut b: usize = n;
    while b > a + 1 && is_ws_byte(v[b - 1])
        invariant
            a < b <= n,
            n == v@.len(),
            forall|j: int| b <= j < n ==> is_ws(v@[j]),
        decreases b,
    {
        b = b - 1;
    }
    // At exit either v[b-1] is no whitespace, or b == a + 1, where v[a]
    // is no whitespace.
    proof {
        assert(!is_ws(v@[b - 1]));
        lemma_trail_ws_unique(v@, n - b);
    }
    slice_bytes(v, a, b)
}

/// The index of the first `sep` in `s`, or `s.len()` when there is none.
pub open spec fn idx_of_byte(s: Seq<u8>, sep: u8) -> int
    decreases s.len(),
{
    if s.len() == 0 {
        0
    } else if s[0] == sep {
        0
    } else {
        1 + idx_of_byte(s.drop_first(), sep)
    }
}

pub proof fn lemma_idx_of_byte_unique(s: Seq<u8>, sep: u8, q: int)
    requires
        0 <= q <= s.len(),
        q < s.len() ==> s[q] == sep,
        forall|j: int| 0 <= j < q ==> s[j] != sep,
    ensures
        idx_of_byte(s, sep) == q,
    decreases s.len(),
{
    if s.len() == 0 {
    } else if q == 0 {
    } else {
        assert(s[0] != sep);
        let d = s.drop_first();
        assert forall|j: int| 0 <= j < q - 1 implies d[j] != sep by {
            assert(d[j] == s[j + 1]);
        }
        if q - 1 < d.len() {
            assert(d[q - 1] == s[q]);
        }
        lemma_idx_of_byte_unique(d, sep, q - 1);
    }
}

/// The first index at or after `from` holding `sep`, or the length.
pub fn find_byte_from(v: &Vec<u8>, from: usize, sep: u8) -> (i: usize)
    requires
        from <= v@.len(),
    ensures
        from <= i <= v@.len(),
        i < v@.len() ==> v@[i as int] == sep,
        forall|j: int| from <= j < i ==> v@[j] != sep,
    decreases v@.len() - from,
{
    let n = v.len();
    let mut i: usize = from;
    while i < n && v[i] != sep
        invariant
            from <= i <= n,
            n == v@.len(),
            forall|j: int| from <= j < i ==> v@[j] != sep,
        decreases n - i,
    {
        i = i + 1;
    }
    i
}

/// The class names inside one selector string: the non-empty pieces
/// between the dots, each trimmed of ASCII whitespace.
pub open spec fn class_names_of(s: Seq<u8>) -> Seq<Seq<u8>>
    decreases s.len(),
{
    let i = idx_of_byte(s, 46);
    if !(0 <= i && i < s.len()) {
        if s.len() > 0 {
            seq![trim_spec(s)]
        } else {
            Seq::empty()
        }
    } else {
        let head = s.subrange(0, i);
        let rest = class_names_of(s.subrange(i + 1, s.len() as int));
        if head.len() > 0 {
            seq![trim_spec(head)] + rest
        } else {
            rest
        }
    }
}

/// The views of a list of byte strings.
pub open spec fn views_of(v: Seq<Vec<u8>>) -> Seq<Seq<u8>> {
    v.map_values(|x: Vec<u8>| x@)
}

/// Splits a selector at the dots into its trimmed, non-empty class names.
pub fn split_class_names(v: &Vec<u8>) -> (r: Vec<Vec<u8>>)
    ensures
        views_of(r@) == class_names_of(v@),
{
    let n = v.len();
    let mut out: Vec<Vec<u8>> = Vec::new();
    let mut cur: usize = 0;
    proof {
        assert(v@.skip(0) =~= v@);
        assert(views_of(out@) =~= Seq::<Seq<u8>>::empty());
    }
    while cur < n
        invariant
            cur <= n,
            n == v@.len(),
            views_of(out@) + class_names_of(v@.skip(cur as int)) == class_names_of(v@),
        decreases n - cur,
    {
        let ghost rest = v@.skip(cur as int);
        let i = find_byte_from(v, cur, 46);
        proof {
            assert forall|j: int| 0 <= j < i - cur implies rest[j] != 46 by {
                assert(rest[j] == v@[cur + j]);
            }
            if i < n {
                assert(rest[i - cur] == v@[i as int]);
            }
            lemma_idx_of_byte_unique(rest, 46, i - cur as int);
        }
        if i == n {
            proof {
                assert(rest.len() > 0);
                assert(rest =~= v@.subrange(cur as int, n as int));
            }
            let seg = slice_bytes(v, cur, n);
            let piece = trim_bytes(&seg);
            out.push(piece);
            proof {
                assert(class_names_of(rest) =~= seq![trim_spec(rest)]);
                assert(views_of(out@) =~= views_of(out@.drop_last()) + seq![trim_spec(rest)]);
                assert(v@.skip(n as int) =~= Seq::<u8>::empty());
                assert(class_names_of(v@.skip(n as int)) =~= Seq::<Seq<u8>>::empty());
                assert(views_of(out@) + class_names_of(v@.skip(n as int)) =~= class_names_of(v@));
            }
            cur = n;
        } else {
            let ghost head = rest.subrange(0, i - cur as int);
            let ghost tail = rest.subrange(i - cur as int + 1, rest.len() as int);
            proof {
                assert(head =~= v@.subrange(cur as int, i as int));
                assert(tail =~= v@.skip(i as int + 1));
                assert(class_names_of(rest) == (if head.len() > 0 {
                    seq![trim_spec(head)] + class_names_of(tail)
                } else {
                    class_names_of(tail)
                }));
            }
            if i > cur {
                let seg = slice_bytes(v, cur, i);
                let piece = trim_bytes(&seg);
                out.push(piece);
                proof {
                    assert(views_of(out@) =~= views_of(out@.drop_last()) + seq![trim_spec(head)]);
                    assert(views_of(out@) + class_names_of(v@.skip(i as int + 1))
                        =~= class_names_of(v@));
                }
            }
            cur = i + 1;
        }
    }
    proof {
        assert(v@.skip(n as int) =~= Seq::<u8>::empty());
        assert(class_names_of(v@.skip(n as int)) =~= Seq::<Seq<u8>>::empty());
        assert(views_of(out@) =~= views_of(out@) + class_names_of(v@.skip(n as int)));
    }
    out
}

/// `a` followed by `b`.
pub fn concat_bytes(a: &Vec<u8>, b: &Vec<u8>) -> (r: Vec<u8>)
    ensures
        r@ == a@ + b@,
{
    let mut out = copy_bytes(a);
    let mut i: usize = 0;
    while i < b.len()
        invariant
            i <= b@.len(),
            out@ == a@ + b@.subrange(0, i as int),
        decreases b@.len() - i,
    {
        out.push(b[i]);
        i = i + 1;
        assert(out@ =~= a@ + b@.subrange(0, i as int));
    }
    assert(out@ =~= a@ + b@);
    out
}

/// The parts joined with single spaces: empty for no parts, else the
/// parts in order with one space between neighbours.
pub open spec fn join_spec(ps: Seq<Seq<u8>>) -> Seq<u8>
    decreases ps.len(),
{
    if ps.len() == 0 {
        Seq::empty()
    } else if ps.len() == 1 {
        ps[0]
    } else {
        join_spec(ps.drop_last()) + seq![32u8] + ps.last()
    }
}

/// Joins byte strings with single spaces.
pub fn join_with_space(parts: &Vec<Vec<u8>>) -> (r: Vec<u8>)
    ensures
        r@ == join_spec(views_of(parts@)),
{
    let n = parts.len();
    let mut out: Vec<u8> = Vec::new();
    let mut i: usize = 0;
    proof {
        assert(views_of(parts@).take(0) =~= Seq::<Seq<u8>>::empty());
    }
    while i < n
        invariant
            i <= n,
            n == parts@.len(),
            out@ == join_spec(views_of(parts@).take(i as int)),
        decreases n - i,
    {
        if i > 0 {
            out.push(32);
        }
        let mut k: usize = 0;
        let ghost mid = out@;
        while k < parts[i].len()
            invariant
                i < n,
                n == parts@.len(),
                k <= parts@[i as int]@.len(),
                out@ == mid + parts@[i as int]@.subrange(0, k as int),
            decreases parts@[i as int]@.len() - k,
        {
            let b = parts[i][k];
            out.push(b);
            k = k + 1;
            assert(out@ =~= mid + parts@[i as int]@.subrange(0, k as int));
        }
        i = i + 1;
        proof {
            let ps = views_of(parts@);
            assert(ps.take(i as int).drop_last() =~= ps.take(i as int - 1));
            assert(ps.take(i as int).last() == parts@[i as int - 1]@);
            assert(parts@[i as int - 1]@.subrange(0, parts@[i as int - 1]@.len() as int)
                =~= parts@[i as int - 1]@);
            if i == 1 {
                assert(out@ =~= ps.take(1).last());
            }
            assert(out@ == join_spec(ps.take(i as int)));
        }
    }
    proof {
        assert(views_of(parts@).take(n as int) =~= views_of(parts@));
    }
    out
}

/// `sub` occurs somewhere in `s`.
pub open spec fn contains_sub(s: Seq<u8>, sub: Seq<u8>) -> bool {
    exists|i: int| 0 <= i <= s.len() - sub.len() && #[trigger] s.subrange(i, i + sub.len()) == sub
}

/// Whether `sub` occurs somewhere in `v`.
pub fn bytes_contains(v: &Vec<u8>, sub: &Vec<u8>) -> (r: bool)
    ensures
        r == contains_sub(v@, sub@),
{
    let n = v.len();
    let m = sub.len();
    if m > n {
        assert(!contains_sub(v@, sub@));
        return false;
    }
    let mut i: usize = 0;
    while i <= n - m
        invariant
            i <= n - m + 1,
            m <= n,
            n == v@.len(),
            m == sub@.len(),
            forall|k: int| 0 <= k < i ==> #[trigger] v@.subrange(k, k + m) != sub@,
        decreases n - m + 1 - i,
    {
        let mut j: usize = 0;
        while j < m && v[i + j] == sub[j]
            invariant
                j <= m,
                i + m <= n,
                n == v@.len(),
                m == sub@.len(),
                forall|q: int| 0 <= q < j ==> v@[i + q] == sub@[q],
            decreases m - j,
        {
            j = j + 1;
        }
        if j == m {
            proof {
                assert(v@.subrange(i as int, i + m) =~= sub@);
            }
            return true;
        }
        proof {
            assert(v@.subrange(i as int, i + m)[j as int] == v@[i + j]);
            assert(v@.subrange(i as int, i + m) != sub@);
        }
        i = i + 1;
    }
    false
}

/// Whether one of the byte strings is `name`.
pub fn list_contains(names: &Vec<Vec<u8>>, name: &Vec<u8>) -> (r: bool)
    ensures
        r == views_of(names@).contains(name@),
{
    let n = names.len();
    let mut i: usize = 0;
    while i < n
        invariant
            i <= n,
            n == names@.len(),
            forall|k: int| 0 <= k < i ==> views_of(names@)[k] != name@,
        decreases n - i,
    {
        if bytes_eq(&names[i], name) {
            proof {
                assert(views_of(names@)[i as int] == name@);
            }
            return true;
        }
        i = i + 1;
    }
    proof {
        assert forall|k: int| 0 <= k < views_of(names@).len() implies views_of(names@)[k]
            != name@ by {}
    }
    false
}

} // verus!
