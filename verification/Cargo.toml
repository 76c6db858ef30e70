[package]
name = "vorto"
version = "0.1.0"
edition = "2021"
publish = false

[dependencies]
anyhow = "=1.0.104"
arboard = { version = "=3.7.0", default-features = false }
crossterm = "=0.29.0"
include_dir = "=0.7.4"
libloading = "=0.8.9"
serde = { version = "=1.0.229", features = ["derive"] }
serde_json = "=1.0.154"
toml = "=0.9.8"
tree-sitter = "=0.25.10"

[dev-dependencies]
tree-sitter-json = "0.24"
