[package]
name = "oel_language_server"
version = "0.1.0"
edition = "2021"
publish = false

[dependencies]
dashmap = "*"
env_logger = "*"
log-panics = "*"
serde = { version = "*", features = ["derive"] }
serde_json = "*"
tokio = { version = "*", features = ["full"] }
tower-lsp = "*"
