[package]
name = "strz_analysis"
version = "0.1.0"
edition = "2021"
publish = false

[dependencies]
tree-sitter = "0.26"
ignore = "0.4"
