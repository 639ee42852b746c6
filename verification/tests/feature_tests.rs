use tjs_language_server::actions::{
    document_symbols, get_function_call_action, get_function_name_from_program,
    get_identifier_from_jsx_element, get_component_symbol, get_word_range_of_string, word_at,
    IdentifierNode,
};
use tjs_language_server::buffer::{slice_bytes, Buffer};
use tjs_language_server::completion::{
    keyword_before_dot, get_react_completion, snippet_completions, template_completions,
    PostfixTemplate,
};
use tjs_language_server::position::Point;
use tjs_language_server::pretty::pretty_display;
use tjs_language_server::query_pattern::{
    document_symbol_query_pattern, react_name_space_import_pattern,
};
use tjs_language_server::registry::Registry;
use tjs_language_server::scss::{all_class_names, insert_position_list, lookup_class, ClassIndex};
use tjs_language_server::syntax::{attribute_covering, expand_to_expression};
use tjs_language_server::tree::{new_scss_parser, new_tsx_parser, NodeInfo, SyntaxNode};

fn open_doc(reg: &mut Registry, parser: &mut tjs_language_server::tree::ParserHandle, uri: &[u8], text: &str) {
    reg.open(parser, &uri.to_vec(), text.as_bytes().to_vec(), 1);
}

#[test]
fn keyword_before_dot_finds_trigger_word() {
    let text = b"foo.ba".to_vec();
    assert_eq!(keyword_before_dot(&text, 6), Some(b"ba".to_vec()));
    // The newline between cancels the dot of the earlier line.
    let text2 = b"a.\nxy".to_vec();
    assert_eq!(keyword_before_dot(&text2, 5), None);
    // No dot before the cursor.
    let text3 = b"plain".to_vec();
    assert_eq!(keyword_before_dot(&text3, 5), None);
}

#[test]
fn snippet_replacements_are_exact() {
    let list = snippet_completions(&b"expr".to_vec());
    assert_eq!(list.len(), 12);
    assert_eq!(list[0].label, b"not".to_vec());
    assert_eq!(list[0].replacement, b"!expr".to_vec());
    assert_eq!(list[1].replacement, b"if (expr) {\n    ${0}\n}".to_vec());
    assert_eq!(list[7].replacement, b"new expr()".to_vec());
    assert_eq!(
        list[11].replacement,
        b"expr.forEach(${1:item} => {\n    ${0}\n})".to_vec()
    );
}

#[test]
fn template_completions_wrap_expression() {
    let templates = vec![PostfixTemplate {
        snippet_key: b"log".to_vec(),
        function_name: b"console.log".to_vec(),
    }];
    let list = template_completions(&templates, &b"value".to_vec());
    assert_eq!(list.len(), 1);
    assert_eq!(list[0].label, b"log".to_vec());
    assert_eq!(list[0].replacement, b"console.log(value)".to_vec());
}

#[test]
fn react_completion_pascal_cases_setter() {
    let rec = get_react_completion(&b"my_state".to_vec(), None);
    assert_eq!(rec.label, b"state".to_vec());
    // Inflector's pascal case must actually transform the name: a wrapper
    // echoing its input would produce "setmy_state" here.
    assert_eq!(
        rec.replacement,
        b"const [my_state, setMyState] = useState(${0})".to_vec()
    );
    let rec2 = get_react_completion(&b"count".to_vec(), Some(&b"React".to_vec()));
    assert_eq!(
        rec2.replacement,
        b"const [count, setCount] = React.useState(${0})".to_vec()
    );
}

#[test]
fn expression_expansion_stops_at_statement() {
    let mut parser = new_tsx_parser();
    let mut reg = Registry::new();
    let uri = b"file:///e.tsx".to_vec();
    open_doc(&mut reg, &mut parser, &uri, "a.b;\n");
    let snap = reg.snapshot(&uri).unwrap();
    let root = snap.root.as_ref().unwrap();
    let node = expand_to_expression(root, 2, 2).unwrap();
    assert_eq!(node.info.kind, "member_expression".to_owned());
    assert_eq!((node.info.start_byte, node.info.end_byte), (0, 3));
    assert_eq!(slice_bytes(&snap.text, node.info.start_byte, node.info.end_byte), b"a.b".to_vec());
}

#[test]
fn attribute_climb_finds_class_attribute() {
    let mut parser = new_tsx_parser();
    let mut reg = Registry::new();
    let uri = b"file:///attr.tsx".to_vec();
    let src = "const a = <div className=\"btn other\">x</div>;\n";
    open_doc(&mut reg, &mut parser, &uri, src);
    let snap = reg.snapshot(&uri).unwrap();
    let root = snap.root.as_ref().unwrap();
    let click = src.find("btn").unwrap();
    let attr = attribute_covering(root, click, click).unwrap();
    assert_eq!(attr.info.kind, "jsx_attribute".to_owned());

    // Inside the attribute's string, the word under the cursor names the
    // class looked up in the style index.
    let string_start = src.find('"').unwrap() + 1;
    let string_end = src.rfind('"').unwrap();
    let value = slice_bytes(&snap.text, string_start, string_end);
    let ranges = get_word_range_of_string(&value);
    assert_eq!(ranges, vec![(0, 3), (4, 9)]);
    let hit = word_at(&ranges, click - string_start).unwrap();
    assert_eq!(hit, (0, 3));
    assert_eq!(slice_bytes(&value, hit.0, hit.1), b"btn".to_vec());
}

#[test]
fn goto_definition_resolves_class_across_index() {
    let mut scss_parser = new_scss_parser();
    let mut index = ClassIndex::new();
    insert_position_list(
        &mut index,
        &b"/a.scss".to_vec(),
        &b".btn { width: 1px; }\n".to_vec(),
        &mut scss_parser,
    );
    insert_position_list(
        &mut index,
        &b"/b.scss".to_vec(),
        &b".other { }\n.btn { }\n".to_vec(),
        &mut scss_parser,
    );
    let hits = lookup_class(&index, &b"btn".to_vec());
    assert_eq!(hits.len(), 2);
    assert_eq!(hits[0].0, b"/a.scss".to_vec());
    assert_eq!((hits[0].1.row, hits[0].1.column), (0, 0));
    assert_eq!(hits[1].0, b"/b.scss".to_vec());
    assert_eq!((hits[1].1.row, hits[1].1.column), (1, 0));

    let names: Vec<Vec<u8>> = all_class_names(&index);
    let mut names: Vec<String> = names
        .into_iter()
        .map(|n| String::from_utf8(n).unwrap())
        .collect();
    names.sort();
    assert_eq!(names, vec!["btn".to_string(), "other".to_string()]);
}

#[test]
fn component_symbols_from_query() {
    let mut parser = new_tsx_parser();
    let mut reg = Registry::new();
    let uri = b"file:///sym.tsx".to_vec();
    let src = "const a = <Foo><Bar x={1} /></Foo>;\n";
    open_doc(&mut reg, &mut parser, &uri, src);
    let captures = reg
        .query_captures(&parser, &uri, document_symbol_query_pattern())
        .unwrap();
    let snap = reg.snapshot(&uri).unwrap();
    let symbols = get_component_symbol(&captures, &snap.text);
    let names: Vec<String> = symbols
        .iter()
        .map(|s| String::from_utf8(s.name.clone()).unwrap())
        .collect();
    assert_eq!(names, vec!["Foo".to_string(), "Bar".to_string()]);
}

#[test]
fn react_namespace_import_is_captured() {
    let mut parser = new_tsx_parser();
    let mut reg = Registry::new();
    let uri = b"file:///imp.tsx".to_vec();
    let src = "import * as React from \"react\";\nconst a = 1;\n";
    open_doc(&mut reg, &mut parser, &uri, src);
    let captures = reg
        .query_captures(&parser, &uri, react_name_space_import_pattern())
        .unwrap();
    assert!(!captures.is_empty());
    let snap = reg.snapshot(&uri).unwrap();
    let first = &captures[0];
    assert_eq!(
        slice_bytes(&snap.text, first.start_byte, first.end_byte),
        b"React".to_vec()
    );
}

#[test]
fn function_call_action_wraps_object() {
    let mut parser = new_tsx_parser();
    let mut reg = Registry::new();
    let uri = b"file:///act.tsx".to_vec();
    let src = "obj.fn;\n";
    open_doc(&mut reg, &mut parser, &uri, src);
    let snap = reg.snapshot(&uri).unwrap();
    let root = snap.root.as_ref().unwrap();
    let b = src.find("fn").unwrap();
    let action = get_function_call_action(root, &snap.text, b, b).unwrap();
    assert_eq!(action.new_text, b"fn(obj)".to_vec());
    assert_eq!(action.title, b"call this function -> fn(obj)".to_vec());
    assert_eq!((action.start_point.row, action.start_point.column), (0, 0));
    assert_eq!((action.end_point.row, action.end_point.column), (0, 6));

    // No action away from a member expression.
    assert!(get_function_call_action(root, &snap.text, 7, 7).is_none());
}

#[test]
fn identifier_collection_dedups_by_name() {
    let source = b"a b a".to_vec();
    let infos = vec![
        NodeInfo {
            kind: "identifier".to_owned(),
            named: true,
            start_byte: 0,
            end_byte: 1,
            start_point: Point { row: 0, column: 0 },
            end_point: Point { row: 0, column: 1 },
        },
        NodeInfo {
            kind: "identifier".to_owned(),
            named: true,
            start_byte: 2,
            end_byte: 3,
            start_point: Point { row: 0, column: 2 },
            end_point: Point { row: 0, column: 3 },
        },
        NodeInfo {
            kind: "identifier".to_owned(),
            named: true,
            start_byte: 4,
            end_byte: 5,
            start_point: Point { row: 0, column: 4 },
            end_point: Point { row: 0, column: 5 },
        },
    ];
    let idents: Vec<IdentifierNode> = get_identifier_from_jsx_element(&infos, &source);
    assert_eq!(idents.len(), 2);
    assert_eq!(idents[0].name, b"a".to_vec());
    assert_eq!(idents[0].start, 0);
    assert_eq!(idents[1].name, b"b".to_vec());
}

#[test]
fn pretty_display_renders_named_nodes() {
    let leaf = SyntaxNode {
        info: NodeInfo {
            kind: "identifier".to_owned(),
            named: true,
            start_byte: 0,
            end_byte: 1,
            start_point: Point { row: 0, column: 0 },
            end_point: Point { row: 0, column: 1 },
        },
        children: Vec::new(),
    };
    let punct = SyntaxNode {
        info: NodeInfo {
            kind: ";".to_owned(),
            named: false,
            start_byte: 1,
            end_byte: 2,
            start_point: Point { row: 0, column: 1 },
            end_point: Point { row: 0, column: 2 },
        },
        children: Vec::new(),
    };
    let root = SyntaxNode {
        info: NodeInfo {
            kind: "program".to_owned(),
            named: true,
            start_byte: 0,
            end_byte: 2,
            start_point: Point { row: 0, column: 0 },
            end_point: Point { row: 1, column: 0 },
        },
        children: vec![leaf, punct],
    };
    let rendered = pretty_display(&root);
    let expected = "program [0, 0] - [1, 0] \n  identifier [0, 0] - [0, 1] \n";
    assert_eq!(String::from_utf8(rendered).unwrap(), expected);
}

#[test]
fn buffer_apply_matches_independent_splice() {
    let original = "hello world";
    let mut buf = Buffer::new(original.as_bytes().to_vec(), 1);
    buf.apply(6, 11, &b"there".to_vec());
    let mut expected = String::new();
    expected.push_str(&original[..6]);
    expected.push_str("there");
    expected.push_str(&original[11..]);
    assert_eq!(buf.bytes, expected.into_bytes());
}

#[test]
fn goto_class_definition_end_to_end() {
    let mut parser = new_tsx_parser();
    let mut scss_parser = new_scss_parser();
    let mut reg = Registry::new();
    let mut index = ClassIndex::new();

    insert_position_list(
        &mut index,
        &b"/styles/app.scss".to_vec(),
        &b".btn { width: 1px; }\n.other { }\n".to_vec(),
        &mut scss_parser,
    );

    let uri = b"file:///goto.tsx".to_vec();
    let src = "const a = <div className=\"other btn\">x</div>;\n";
    open_doc(&mut reg, &mut parser, &uri, src);
    let snap = reg.snapshot(&uri).unwrap();
    let root = snap.root.as_ref().unwrap();

    let click = src.find("btn").unwrap();
    let hits = tjs_language_server::actions::goto_class_definition(root, &snap.text, click, &index);
    assert_eq!(hits.len(), 1);
    assert_eq!(hits[0].0, b"/styles/app.scss".to_vec());
    assert_eq!((hits[0].1.row, hits[0].1.column), (0, 0));

    // A click outside any class attribute resolves to nothing.
    let elsewhere = src.find("const").unwrap();
    assert!(tjs_language_server::actions::goto_class_definition(root, &snap.text, elsewhere, &index)
        .is_empty());
}

#[test]
fn fresh_component_name_skips_taken() {
    let names = vec![b"Component0".to_vec(), b"Component2".to_vec(), b"App".to_vec()];
    assert_eq!(get_function_name_from_program(&names), b"Component1".to_vec());
    assert_eq!(get_function_name_from_program(&Vec::new()), b"Component0".to_vec());
}

#[test]
fn document_symbols_composite_lists_components() {
    let mut parser = new_tsx_parser();
    let mut reg = Registry::new();
    let uri = b"file:///comp.tsx".to_vec();
    let src = "const a = <Foo><Bar x={1} /></Foo>;\n";
    open_doc(&mut reg, &mut parser, &uri, src);
    let symbols = document_symbols(&reg, &parser, &uri).unwrap();
    let names: Vec<String> = symbols
        .iter()
        .map(|s| String::from_utf8(s.name.clone()).unwrap())
        .collect();
    assert_eq!(names, vec!["Foo".to_string(), "Bar".to_string()]);
    assert_eq!((symbols[0].start_point.row, symbols[0].start_point.column), (0, 11));

    // A closed document answers with no data.
    reg.close(&uri);
    assert!(document_symbols(&reg, &parser, &uri).is_none());
}
