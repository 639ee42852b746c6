//! Incremental document/tree synchronization core for a language server.
//!
//! The crate keeps one text buffer and one parse tree per open document,
//! translates editor positions (line, UTF-16 column) into byte offsets,
//! applies batches of text edits, and reparses incrementally through
//! tree-sitter, which is reached only through a small set of trusted
//! wrappers.

pub mod actions;
pub mod buffer;
pub mod completion;
pub mod notification;
pub mod position;
pub mod pretty;
pub mod query_pattern;
pub mod registry;
pub mod scss;
pub mod sync;
pub mod syntax;
pub mod text;
pub mod tree;
