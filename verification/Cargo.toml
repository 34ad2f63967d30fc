[package]
name = "hephaestus"
version = "0.1.0"
edition = "2021"
publish = false

[dependencies]
sha2 = "0.10"
blake3 = "1"
flate2 = "1"
tree-sitter = "0.20"
tree-sitter-rust = "0.20"
tree-sitter-c = "0.20"
serde = { version = "1", features = ["derive"] }
serde_json = "1"
rusqlite = { version = "0.31", features = ["bundled"] }
tokio = { version = "1", features = ["full"] }
libc = "0.2"
backtrace = "0.3"
tempfile = "3"
thiserror = "1"
futures = "0.3"
