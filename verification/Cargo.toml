[package]
name = "patchwork"
version = "0.1.0"
edition = "2021"
publish = false

[dependencies]
tree-sitter = "=0.26.13"
tree-sitter-java = "=0.23.5"
tree-sitter-python = "=0.23.6"
tree-sitter-javascript = "=0.25.0"
clap = { version = "=4.6.7", features = ["derive"] }
