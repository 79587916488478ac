[package]
name = "onehup"
version = "0.1.0"
edition = "2021"
publish = false

[dependencies]
serde = { version = "1", features = ["derive"] }
serde_json = "1"
anyhow = "1"
async-trait = "0.1"
tokio = { version = "1", features = ["rt-multi-thread", "macros", "fs", "sync"] }
sqlx = { version = "0.8", default-features = false, features = ["sqlite", "runtime-tokio"] }
lsp-types = "0.97"
