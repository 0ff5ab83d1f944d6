[package]
name = "amber_lsp"
version = "0.1.0"
edition = "2021"
publish = false

[dependencies]
dashmap = "6"
rustc-hash = "2"
rangemap = "1"
indexmap = "2"
ropey = "1"
clap = { version = "4", features = ["derive"] }
tokio = { version = "1", features = ["full"] }
tracing = "0.1"
tracing-subscriber = "0.3"
tracing-appender = "0.2"
thiserror = "2"
