[package]
name = "textedit"
version = "0.1.0"
edition = "2021"
publish = false

[dependencies]
ropey = { version = "=1.6.1", default-features = false }
aho-corasick = "=1.1.5"
tree-sitter = "=0.27.0"
tree-sitter-md = "=0.5.3"
tree-sitter-yaml = "=0.7.2"
tree-sitter-html = "=0.23.2"
streaming-iterator = "=0.1.9"
