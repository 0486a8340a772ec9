[package]
name = "ragd"
version = "0.1.0"
edition = "2021"
publish = false

[dependencies]
arrow-array = { version = "=57.3.2", default-features = false }
arrow-schema = { version = "=57.3.2", default-features = false }
axum = "=0.8.9"
chrono = { version = "=0.4.45", default-features = false, features = ["clock", "std"] }
clap = { version = "=4.6.7", features = ["string"] }
futures = "=0.3.34"
ignore = "=0.4.34"
notify-debouncer-mini = "=0.7.0"
reqwest = { version = "=0.12.28", default-features = false, features = ["json"] }
serde = { version = "=1.0.229", features = ["derive"] }
serde_json = "=1.0.154"
thiserror = "=2.0.21"
tokio = { version = "=1.54.1", features = ["full"] }
tokio-util = "=0.7.20"
tree-sitter = "=0.26.13"
tree-sitter-go = "=0.25.0"
tree-sitter-javascript = "=0.25.0"
tree-sitter-python = "=0.25.0"
tree-sitter-rust = "=0.24.2"
tree-sitter-typescript = "=0.23.2"
