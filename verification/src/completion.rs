//! Completion building: the trigger-word lookback, the snippet and
//! postfix-template expansions, and the React state completion.

use inflector::Inflector;

use vstd::prelude::*;
use vstd::string::{StrSliceExecFns, StringSliceAdditionalSpecFns};
use crate::buffer::copy_bytes;
use crate::text::concat_bytes;

verus! {

/// The last `.` on the cursor's line before the cursor: scanning back
/// from `c`, the first dot, unless a newline (or the text's start) comes
/// first.
pub open spec fn scan_back_dot(t: Seq<u8>, c: int) -> Option<int>
    decreases c,
{
    if c <= 0 {
        None
    } else if t[c - 1] == 10 {
        None
    } else if t[c - 1] == 46 {
        Some(c - 1)
    } else {
        scan_back_dot(t, c - 1)
    }
}

/// The word between the last `.` before the cursor and the cursor, on the
/// cursor's line: what the editor typed after the trigger dot.  No dot on
/// the line before the cursor gives nothing.
pub fn keyword_before_dot(text: &Vec<u8>, cursor: usize) -> (r: Option<Vec<u8>>)
    requires
        cursor <= text@.len(),
    ensures
        (match r {
            Some(w) => scan_back_dot(text@, cursor as int) matches Some(d) && w@
                == text@.subrange(d + 1, cursor as int),
            None => scan_back_dot(text@, cursor as int) is None,
        }),
{
    let mut i: usize = cursor;
    while i > 0 && text[i - 1] != 10 && text[i - 1] != 46
        invariant
            i <= cursor,
            cursor <= text@.len(),
            scan_back_dot(text@, cursor as int) == scan_back_dot(text@, i as int),
        decreases i,
    {
        i = i - 1;
    }
    if i == 0 {
        return None;
    }
    if text[i - 1] == 10 {
        return None;
    }
    Some(crate::buffer::slice_bytes(text, i, cursor))
}

/// One completion the facade offers: its menu label, its description, and
/// the text it inserts.
pub struct CompletionRecord {
    pub label: Vec<u8>,
    pub detail: Vec<u8>,
    pub replacement: Vec<u8>,
}

/// A completion record as plain data: label, detail, replacement.
pub open spec fn records_view(v: Seq<CompletionRecord>) -> Seq<(Seq<u8>, Seq<u8>, Seq<u8>)> {
    v.map_values(|r: CompletionRecord| (r.label@, r.detail@, r.replacement@))
}

/// The first half of the snippet table offered for an expression with
/// text `src`: label, description, and the snippet replacing it.
pub open spec fn snippet_list_a(src: Seq<u8>) -> Seq<(Seq<u8>, Seq<u8>, Seq<u8>)> {
    seq![
        ("not".spec_bytes(), "revert a variable or expression".spec_bytes(), "!".spec_bytes()
        + src),
        ("if".spec_bytes(), "if (expr)".spec_bytes(), "if (".spec_bytes() + src
        + ") {\n    ${0}\n}".spec_bytes()),
        ("var".spec_bytes(), "var name = expr".spec_bytes(), "var ${0} = ".spec_bytes() + src),
        ("let".spec_bytes(), "let name = expr".spec_bytes(), "let ${0} = ".spec_bytes() + src),
        ("const".spec_bytes(), "const name = expr".spec_bytes(), "const ${0} = ".spec_bytes()
        + src),
        ("cast".spec_bytes(), "(<name>expr)".spec_bytes(), "(<${0}>".spec_bytes() + src
        + ")".spec_bytes()),
    ]
}

/// The second half of the snippet table.
pub open spec fn snippet_list_b(src: Seq<u8>) -> Seq<(Seq<u8>, Seq<u8>, Seq<u8>)> {
    seq![
        ("as".spec_bytes(), "(expr as name)".spec_bytes(), "(".spec_bytes() + src
        + " as ${0})".spec_bytes()),
        ("new".spec_bytes(), "new expr()".spec_bytes(), "new ".spec_bytes() + src
        + "()".spec_bytes()),
        ("return".spec_bytes(), "return expr".spec_bytes(), "return ".spec_bytes() + src),
        ("for".spec_bytes(), "forloop".spec_bytes(), "for (let ${1:i} = 0, len = ".spec_bytes()
        + src + ".length; ${1:i} < len; ${1:i}++) {\n  ${0}\n}".spec_bytes()),
        ("forof".spec_bytes(), "forof".spec_bytes(), "for (let ${1:item} of ".spec_bytes() + src
        + ") {\n  ${0}\n}".spec_bytes()),
        ("foreach".spec_bytes(), "expr.forEach(item => )".spec_bytes(), src
        + ".forEach(${1:item} => {\n    ${0}\n})".spec_bytes()),
    ]
}

/// The whole snippet table.
pub open spec fn snippet_list_spec(src: Seq<u8>) -> Seq<(Seq<u8>, Seq<u8>, Seq<u8>)> {
    snippet_list_a(src) + snippet_list_b(src)
}

/// The empty string encodes to no bytes.
proof fn lemma_empty_spec_bytes()
    ensures
        "".spec_bytes() =~= Seq::<u8>::empty(),
{
    reveal_strlit("");
    assert(""@.len() == 0);
}

/// Builds one record from literal label and detail, a literal prefix and
/// suffix, and the expression text between them.
fn snippet_record(label: &str, detail: &str, prefix: &str, src: &Vec<u8>, suffix: &str) -> (r:
    CompletionRecord)
    ensures
        r.label@ == label.spec_bytes(),
        r.detail@ == detail.spec_bytes(),
        r.replacement@ == prefix.spec_bytes() + src@ + suffix.spec_bytes(),
{
    let pre = prefix.as_bytes_vec();
    let mid = concat_bytes(&pre, src);
    let suf = suffix.as_bytes_vec();
    let replacement = concat_bytes(&mid, &suf);
    CompletionRecord { label: label.as_bytes_vec(), detail: detail.as_bytes_vec(), replacement }
}

/// The first half of the snippet completion list.
#[verifier::rlimit(100)]
fn snippet_completions_a(source: &Vec<u8>) -> (r: Vec<CompletionRecord>)
    ensures
        records_view(r@) == snippet_list_a(source@),
{
    let mut out: Vec<CompletionRecord> = Vec::new();
    out.push(snippet_record("not", "revert a variable or expression", "!", source, ""));
    out.push(snippet_record("if", "if (expr)", "if (", source, ") {\n    ${0}\n}"));
    out.push(snippet_record("var", "var name = expr", "var ${0} = ", source, ""));
    out.push(snippet_record("let", "let name = expr", "let ${0} = ", source, ""));
    out.push(snippet_record("const", "const name = expr", "const ${0} = ", source, ""));
    out.push(snippet_record("cast", "(<name>expr)", "(<${0}>", source, ")"));
    proof {
        lemma_empty_spec_bytes();
        let sp = snippet_list_a(source@);
        let rv = records_view(out@);
        assert(rv.len() == 6);
        assert(rv[0].2 =~= sp[0].2);
        assert(rv[2].2 =~= sp[2].2);
        assert(rv[3].2 =~= sp[3].2);
        assert(rv[4].2 =~= sp[4].2);
        assert(rv[0] == sp[0]);
        assert(rv[1] == sp[1]);
        assert(rv[2] == sp[2]);
        assert(rv[3] == sp[3]);
        assert(rv[4] == sp[4]);
        assert(rv[5] == sp[5]);
        assert(rv =~= sp);
    }
    out
}

/// The second half of the snippet completion list.
#[verifier::rlimit(100)]
fn snippet_completions_b(source: &Vec<u8>) -> (r: Vec<CompletionRecord>)
    ensures
        records_view(r@) == snippet_list_b(source@),
{
    let mut out: Vec<CompletionRecord> = Vec::new();
    out.push(snippet_record("as", "(expr as name)", "(", source, " as ${0})"));
    out.push(snippet_record("new", "new expr()", "new ", source, "()"));
    out.push(snippet_record("return", "return expr", "return ", source, ""));
    out.push(
        snippet_record(
            "for",
            "forloop",
            "for (let ${1:i} = 0, len = ",
            source,
            ".length; ${1:i} < len; ${1:i}++) {\n  ${0}\n}",
        ),
    );
    out.push(
        snippet_record("forof", "forof", "for (let ${1:item} of ", source, ") {\n  ${0}\n}"),
    );
    out.push(
        snippet_record(
            "foreach",
            "expr.forEach(item => )",
            "",
            source,
            ".forEach(${1:item} => {\n    ${0}\n})",
        ),
    );
    proof {
        lemma_empty_spec_bytes();
        let sp = snippet_list_b(source@);
        let rv = records_view(out@);
        assert(rv.len() == 6);
        assert(rv[2].2 =~= sp[2].2);
        assert(rv[5].2 =~= sp[5].2);
        assert(rv[0] == sp[0]);
        assert(rv[1] == sp[1]);
        assert(rv[2] == sp[2]);
        assert(rv[3] == sp[3]);
        assert(rv[4] == sp[4]);
        assert(rv[5] == sp[5]);
        assert(rv =~= sp);
    }
    out
}

/// The snippet completion list for the expression ending at the cursor,
/// exactly the table the server offers.
pub fn snippet_completions(source: &Vec<u8>) -> (r: Vec<CompletionRecord>)
    ensures
        records_view(r@) == snippet_list_spec(source@),
{
    let mut out = snippet_completions_a(source);
    let mut tail = snippet_completions_b(source);
    let ghost front = out@;
    let ghost back = tail@;
    out.append(&mut tail);
    proof {
        assert(out@ == front + back);
        assert(records_view(front + back) =~= records_view(front) + records_view(back));
    }
    out
}

/// One user-configured postfix template: the snippet key it answers to
/// and the function it wraps the expression in.
pub struct PostfixTemplate {
    pub snippet_key: Vec<u8>,
    pub function_name: Vec<u8>,
}

/// The records the template list yields for an expression with text
/// `src`: each template's key and function, with `function(src)` as the
/// inserted text.
pub open spec fn template_records_spec(ts: Seq<(Seq<u8>, Seq<u8>)>, src: Seq<u8>) -> Seq<
    (Seq<u8>, Seq<u8>, Seq<u8>),
> {
    ts.map_values(
        |t: (Seq<u8>, Seq<u8>)| (t.0, t.1, t.1 + "(".spec_bytes() + src + ")".spec_bytes()),
    )
}

/// The templates as plain data.
pub open spec fn templates_view(ts: Seq<PostfixTemplate>) -> Seq<(Seq<u8>, Seq<u8>)> {
    ts.map_values(|t: PostfixTemplate| (t.snippet_key@, t.function_name@))
}

/// The postfix-template completion list for the expression ending at the
/// cursor: one record per configured template, wrapping the expression in
/// a call of the template's function.
pub fn template_completions(templates: &Vec<PostfixTemplate>, source: &Vec<u8>) -> (r: Vec<
    CompletionRecord,
>)
    ensures
        records_view(r@) == template_records_spec(templates_view(templates@), source@),
{
    let ghost target = template_records_spec(templates_view(templates@), source@);
    let mut out: Vec<CompletionRecord> = Vec::new();
    let n = templates.len();
    let mut i: usize = 0;
    proof {
        assert(records_view(out@) =~= target.take(0));
    }
    while i < n
        invariant
            i <= n,
            n == templates@.len(),
            target == template_records_spec(templates_view(templates@), source@),
            records_view(out@) == target.take(i as int),
        decreases n - i,
    {
        let t = &templates[i];
        let open_paren = "(".as_bytes_vec();
        let close_paren = ")".as_bytes_vec();
        let a = concat_bytes(&t.function_name, &open_paren);
        let b = concat_bytes(&a, source);
        let replacement = concat_bytes(&b, &close_paren);
        let rec = CompletionRecord {
            label: copy_bytes(&t.snippet_key),
            detail: copy_bytes(&t.function_name),
            replacement,
        };
        out.push(rec);
        i = i + 1;
        proof {
            assert(records_view(out@) =~= records_view(out@.drop_last()).push(
                (templates@[i - 1].snippet_key@, templates@[i - 1].function_name@,
                templates@[i - 1].function_name@ + "(".spec_bytes() + source@ + ")".spec_bytes()),
            ));
            assert(target[i - 1] == (templates_view(templates@)[i - 1].0,
            templates_view(templates@)[i - 1].1,
            templates_view(templates@)[i - 1].1 + "(".spec_bytes() + source@ + ")".spec_bytes()));
            assert(target.take(i as int) =~= target.take(i as int - 1).push(target[i - 1]));
        }
    }
    proof {
        assert(target.take(n as int) =~= target);
    }
    out
}

/// What Inflector's `to_pascal_case` returns for these bytes: a function
/// of the characters alone.
pub uninterp spec fn pascal_of(s: Seq<u8>) -> Seq<u8>;

/// Relies on Inflector's to_pascal_case: deterministic in its input.
/// Bytes that are not valid UTF-8 come back unchanged.
#[verifier::external_body]
fn to_pascal_case_bytes(s: &Vec<u8>) -> (r: Vec<u8>)
    ensures
        r@ == pascal_of(s@),
{
    match std::str::from_utf8(s.as_slice()) {
        Ok(t) => t.to_pascal_case().into_bytes(),
        Err(_) => s.clone(),
    }
}

/// The function a React state completion calls: `useState`, qualified
/// with the namespace the document imports React under, if any.
pub open spec fn use_state_call(namespace: Option<Seq<u8>>) -> Seq<u8> {
    match namespace {
        Some(ns) => ns + ".useState".spec_bytes(),
        None => "useState".spec_bytes(),
    }
}

/// The text the React state completion inserts for an expression `name`:
/// a destructuring `const` binding of `name` and its pascal-cased setter
/// from a `useState` call.
pub open spec fn react_replacement(name: Seq<u8>, namespace: Option<Seq<u8>>) -> Seq<u8> {
    "const [".spec_bytes() + name + ", set".spec_bytes() + pascal_of(name) + "] = ".spec_bytes()
        + use_state_call(namespace) + "(${0})".spec_bytes()
}

/// Builds the React state completion for the expression before the dot,
/// with the document's React namespace import if one was found.
pub fn get_react_completion(name: &Vec<u8>, namespace: Option<&Vec<u8>>) -> (r: CompletionRecord)
    ensures
        r.label@ == "state".spec_bytes(),
        r.detail@ == "const [<expr>, <expr>] = ".spec_bytes() + use_state_call(
            match namespace {
                Some(ns) => Some(ns@),
                None => None,
            },
        ) + "()".spec_bytes(),
        r.replacement@ == react_replacement(
            name@,
            match namespace {
                Some(ns) => Some(ns@),
                None => None,
            },
        ),
{
    let function_call: Vec<u8> = match namespace {
        Some(ns) => {
            let use_state = ".useState".as_bytes_vec();
            concat_bytes(ns, &use_state)
        },
        None => "useState".as_bytes_vec(),
    };
    let pascal = to_pascal_case_bytes(name);
    let p1 = "const [".as_bytes_vec();
    let p2 = concat_bytes(&p1, name);
    let p3 = ", set".as_bytes_vec();
    let p4 = concat_bytes(&p2, &p3);
    let p5 = concat_bytes(&p4, &pascal);
    let p6 = "] = ".as_bytes_vec();
    let p7 = concat_bytes(&p5, &p6);
    let p8 = concat_bytes(&p7, &function_call);
    let p9 = "(${0})".as_bytes_vec();
    let replacement = concat_bytes(&p8, &p9);
    let d1 = "const [<expr>, <expr>] = ".as_bytes_vec();
    let d2 = concat_bytes(&d1, &function_call);
    let d3 = "()".as_bytes_vec();
    let detail = concat_bytes(&d2, &d3);
    let r = CompletionRecord { label: "state".as_bytes_vec(), detail, replacement };
    proof {
        assert(r.replacement@ =~= react_replacement(
            name@,
            match namespace {
                Some(ns) => Some(ns@),
                None => None,
            },
        ));
        assert(r.detail@ =~= "const [<expr>, <expr>] = ".spec_bytes() + use_state_call(
            match namespace {
                Some(ns) => Some(ns@),
                None => None,
            },
        ) + "()".spec_bytes());
    }
    r
}

} // verus!
