[package]
name = "baml_expr"
version = "0.1.0"
edition = "2021"
publish = false

[dev-dependencies]
lsp-types = "0.94"
