[package]
name = "ts_cursor"
version = "0.1.0"
edition = "2021"
publish = false

[dependencies]
anyhow = "1"
tree-sitter = "0.20"

[dev-dependencies]
tree-sitter-javascript = "0.20"
tree-sitter-php = "0.20"
