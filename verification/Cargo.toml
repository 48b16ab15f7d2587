[package]
name = "typst_serde"
version = "0.1.0"
edition = "2021"
publish = false

[dependencies]
serde = "1"
typst = "*"

[dev-dependencies]
serde_json = "1"
serde_bytes = "0.11"
