[package]
name = "ql"
version = "0.1.0"
edition = "2021"
publish = false

[dependencies]
ignore = "=0.4.34"
serde = { version = "=1.0.229", features = ["derive"] }
serde_json = "=1.0.154"
tree-sitter = "=0.27.1"
tree-sitter-go = "=0.25.0"
tree-sitter-python = "=0.25.0"
tree-sitter-rust = "=0.24.2"
tree-sitter-typescript = "=0.23.2"
