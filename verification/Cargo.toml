[package]
name = "nil"
version = "0.1.0"
edition = "2021"
publish = false

[dependencies]
crossbeam-channel = "0.5"
ignore = "0.4"
lsp-server = "0.6"
lsp-types = "0.93"
rowan = "0.15"
salsa = "0.16"
serde = { version = "1", features = ["derive"] }
serde_json = "1"
text-size = "1.1"
tracing = "0.1"
