[package]
name = "viwo"
version = "0.1.0"
edition = "2021"
publish = false

[dependencies]
serde = { version = "1", features = ["derive"] }
serde_json = "1"
thiserror = "1"
rusqlite = { version = "*", features = ["bundled"] }
tokio = { version = "1", features = ["full"] }
tokio-tungstenite = "0.26"
futures-util = "0.3"
tracing = "0.1"
clap = { version = "4", features = ["derive"] }
libloading = "0.8"
reqwest = { version = "0.12", default-features = false, features = ["rustls-tls"] }
tree-sitter = "*"
tree-sitter-typescript = "*"
