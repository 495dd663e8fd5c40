[package]
name = "exploit_prover"
version = "0.1.0"
edition = "2021"
publish = false

[dependencies]
tree-sitter = "0.20"
tree-sitter-python = "0.20"
urlencoding = "2"
serde = { version = "1", features = ["derive"] }
