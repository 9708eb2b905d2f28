[package]
name = "trace"
version = "0.1.0"
edition = "2021"
publish = false

[dependencies]
anyhow = "=1.0.104"
clap = { version = "=4.6.7", features = ["derive"] }
indexmap = "=2.14.2"
rayon = "=1.12.0"
rusqlite = { version = "=0.31.0", features = ["bundled"] }
rustc-hash = "=2.1.3"
serde_json = "=1.0.154"
thiserror = "=1.0.69"
tree-sitter = "=0.24.7"
tree-sitter-c = "=0.23.4"
tree-sitter-cpp = "=0.23.4"
walkdir = "=2.5.0"
