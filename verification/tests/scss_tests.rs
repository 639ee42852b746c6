use tjs_language_server::scss::{
    insert_position_list, lookup_class, parse_stylesheet, remove_position_list,
    traverse_scss_file, ClassIndex,
};
use tjs_language_server::tree::new_scss_parser;

fn assert_class_list(scss: &str, expected: Vec<String>) {
    let mut parser = new_scss_parser();
    let source = scss.as_bytes().to_vec();
    let root = parse_stylesheet(&mut parser, &source).unwrap();
    let mut trace_stack = Vec::new();
    let mut position_list = Vec::new();
    traverse_scss_file(&root, &mut trace_stack, &source, &mut position_list);
    let mut class_list = position_list
        .into_iter()
        .map(|item| String::from_utf8(item.0).unwrap())
        .collect::<Vec<_>>();
    class_list.sort();
    assert_eq!(class_list, expected);
}

#[test]
fn test_nesting_scss() {
    let scss = r#"
.btn {
    width: 100px;
    &-first.second, &-tes.that.third{
        height: 10px;
        &-result {
            color: #ccc;

        }
    }
}
        "#;
    let mut expected = vec![
        "btn".to_string(),
        "btn-first".to_string(),
        "second".to_string(),
        "btn-tes".to_string(),
        "that".to_string(),
        "third".to_string(),
        "btn-first".to_string(),
        "second-result".to_string(),
        "btn-tes".to_string(),
        "that".to_string(),
        "third-result".to_string(),
    ];
    expected.sort();
    assert_class_list(scss, expected);
}

#[test]
fn test_descendent_scss() {
    let scss = r#"
.btn {
    width: 100px;
    &-result &-second, &-another.that {
        &.function {
            width: 10px;
        }
    }
}
        "#;
    let mut expected = vec![
        "btn-result".to_string(),
        "btn-second".to_string(),
        "btn-another".to_string(),
        "that".to_string(),
        "btn".to_string(),
        "btn-result".to_string(),
        "btn-second".to_string(),
        "function".to_string(),
        "btn-another".to_string(),
        "that".to_string(),
        "function".to_string(),
    ];
    expected.sort();
    assert_class_list(scss, expected);
}

#[test]
fn class_index_insert_lookup_remove() {
    let mut parser = new_scss_parser();
    let mut index = ClassIndex::new();
    let path = b"/app/styles/main.scss".to_vec();
    let source = b".btn { width: 1px; }\n.icon { height: 2px; }\n".to_vec();
    insert_position_list(&mut index, &path, &source, &mut parser);

    let hits = lookup_class(&index, &b"btn".to_vec());
    assert_eq!(hits.len(), 1);
    assert_eq!(hits[0].0, path);
    assert_eq!((hits[0].1.row, hits[0].1.column), (0, 0));

    let icon_hits = lookup_class(&index, &b"icon".to_vec());
    assert_eq!(icon_hits.len(), 1);
    assert_eq!((icon_hits[0].1.row, icon_hits[0].1.column), (1, 0));

    // A path without a style suffix is ignored.
    let other = b"/app/readme.md".to_vec();
    insert_position_list(&mut index, &other, &source, &mut parser);
    assert!(lookup_class(&index, &b"btn".to_vec()).len() == 1);

    remove_position_list(&mut index, &path);
    assert!(lookup_class(&index, &b"btn".to_vec()).is_empty());
}

fn node(kind: &str, named: bool, start: usize, end: usize, children: Vec<tjs_language_server::tree::SyntaxNode>) -> tjs_language_server::tree::SyntaxNode {
    tjs_language_server::tree::SyntaxNode {
        info: tjs_language_server::tree::NodeInfo {
            kind: kind.to_owned(),
            named,
            start_byte: start,
            end_byte: end,
            start_point: tjs_language_server::position::Point { row: 0, column: start },
            end_point: tjs_language_server::position::Point { row: 0, column: end },
        },
        children,
    }
}

#[test]
fn flat_traverse_expands_nesting_markers() {
    // A tree for ".btn { &-x { } }": the simpler walk reads the
    // class_name parts and expands the nesting marker.
    let source = b".btn { &-x { } }".to_vec();
    let outer_selector = node(
        "class_selector",
        true,
        0,
        4,
        vec![node(".", false, 0, 1, Vec::new()), node("class_name", true, 1, 4, Vec::new())],
    );
    let inner_selector = node(
        "class_selector",
        true,
        7,
        10,
        vec![
            node("nesting_selector", true, 7, 8, Vec::new()),
            node("class_name", true, 8, 10, Vec::new()),
        ],
    );
    let inner_rule = node(
        "rule_set",
        true,
        7,
        14,
        vec![
            node("selectors", true, 7, 10, vec![inner_selector]),
            node("block", true, 11, 14, Vec::new()),
        ],
    );
    let outer_rule = node(
        "rule_set",
        true,
        0,
        16,
        vec![
            node("selectors", true, 0, 4, vec![outer_selector]),
            node("block", true, 5, 16, vec![inner_rule]),
        ],
    );
    let root = node("stylesheet", true, 0, 16, vec![outer_rule]);

    let mut trace_stack = Vec::new();
    let mut position_list = Vec::new();
    tjs_language_server::scss::traverse(&root, &mut trace_stack, &source, &mut position_list);
    assert!(trace_stack.is_empty());
    let names: Vec<String> = position_list
        .into_iter()
        .map(|p| String::from_utf8(p.0).unwrap())
        .collect();
    assert_eq!(names, vec!["btn".to_string(), "btn-x".to_string()]);
}
