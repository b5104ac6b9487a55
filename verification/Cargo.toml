[package]
name = "zk_lsp"
version = "0.1.0"
edition = "2021"
publish = false

[dependencies]
regex = "1"
toml = "*"
serde_json = "1"
chrono = "*"
