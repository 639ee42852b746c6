[package]
name = "tjs_language_server"
version = "0.1.0"
edition = "2021"
publish = false

[dependencies]
tree-sitter = "=0.23.2"
tree-sitter-typescript = "=0.23.2"
tree-sitter-scss = "=1.0.0"
streaming-iterator = "*"
Inflector = "=0.11.4"
serde = { version = "=1.0.229", features = ["derive"] }
serde_json = "=1.0.151"
