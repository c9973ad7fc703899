[package]
name = "eds_lsp"
version = "0.1.0"
edition = "2021"
publish = false

[dependencies]
tokio = { version = "=1.53.2", features = ["full"] }
tower-lsp = "=0.20.0"
tree-sitter = "=0.20.10"
tree-sitter-eds = "=0.0.1"
