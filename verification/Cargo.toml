[package]
name = "sync_lsp"
version = "0.1.0"
edition = "2021"
publish = false

[dependencies]
anyhow = "*"
async-lsp = "*"
async-process = "*"
clap = { version = "*", features = ["derive"] }
futures = "*"
indexmap = { version = "*", features = ["serde"] }
log = "*"
serde = { version = "*", features = ["derive"] }
serde_json = "*"
tokio = { version = "*", features = ["rt", "macros"] }
tower = "*"
urlencoding = "*"
