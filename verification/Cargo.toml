[package]
name = "lichen"
version = "0.1.0"
edition = "2021"
publish = false

[dependencies]
clap = "=2.34.0"
itertools = "=0.10.5"
onig = { version = "=6.5.3", default-features = false }
syntect = "=4.6.0"
tree-sitter = "=0.20.10"
walkdir = "=2.5.0"

[dev-dependencies]
tree-sitter-json = "0.20"
