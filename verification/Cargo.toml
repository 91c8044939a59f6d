[package]
name = "m1_features"
version = "0.1.0"
edition = "2021"
publish = false

[dependencies]
serde_json = "1"
tower-lsp = "0.20"
