[package]
name = "kcl_to_lsp"
version = "0.1.0"
edition = "2021"
publish = false

[dependencies]
anyhow = "1"
im-rc = "15"
lsp-types = "0.93"
serde_json = "1"
