[package]
name = "tern"
version = "0.1.0"
edition = "2021"
publish = false

[dependencies]
unicode-width = "=0.2.3"
unicode-segmentation = "=1.13.3"
crossterm = "=0.28.1"
base64 = "=0.22.1"
supports-color = "=3.0.2"
rustix = { version = "=1.1.6", features = ["fs"] }
serde_json = "=1.0.154"
tree-sitter = "=0.25.10"
tree-sitter-language = "=0.1.9"
tree-sitter-rust = "=0.24.2"
tree-sitter-typescript = "=0.23.2"
tree-sitter-javascript = "=0.25.0"
tree-sitter-json = "=0.24.8"
tree-sitter-bash = "=0.25.1"
taffy = "0.7"
