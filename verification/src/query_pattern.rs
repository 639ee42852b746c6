//! The tree queries the server runs against a document's tree: component
//! names for document symbols, identifiers and element bodies for the
//! component extraction, and the document's React namespace import.

use vstd::prelude::*;

verus! {

/// The component-name pattern, as contracts see it.
pub open spec fn document_symbol_query_spec() -> Seq<char> {
    "\n(jsx_opening_element\n    name: (_) @a\n    (#match? @a \"^[A-Z]\")\n)\n(jsx_self_closing_element\n    name: (_) @a\n    (#match? @a \"^[A-Z]\")\n)\n"@
}

/// Captures the names of rendered components: capitalised element names
/// of opening and self-closing elements.
pub fn document_symbol_query_pattern() -> (r: &'static str)
    ensures
        r@ == document_symbol_query_spec(),
{
    "\n(jsx_opening_element\n    name: (_) @a\n    (#match? @a \"^[A-Z]\")\n)\n(jsx_self_closing_element\n    name: (_) @a\n    (#match? @a \"^[A-Z]\")\n)\n"
}

/// Captures every identifier below the matched node.
pub fn identifier_query_pattern() -> &'static str {
    "(identifier) @a"
}

/// Captures every embedded expression of an element body.
pub fn jsx_expression_query_pattern() -> &'static str {
    "(jsx_expression) @a"
}

/// Captures the namespace a document imports React under, as in
/// `import * as React from \"react\"`.
pub fn react_name_space_import_pattern() -> &'static str {
    "\n(import_statement\n  (import_clause\n    (namespace_import (identifier) @namespace)\n  )\n  source: (string\n    (string_fragment) @source\n  )\n\n  (#match? @source \"react\")\n)\n"
}

} // verus!
