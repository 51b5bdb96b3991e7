[package]
name = "epimetheus"
version = "0.1.0"
edition = "2021"
publish = false

[dependencies]
serde_json = "1"
serde_yaml = "0.9"
csv = "1"
prometheus = "0.13"
axum = "0.6"
clap = { version = "4", features = ["derive", "env"] }
reqwest = { version = "0.11", default-features = false }
tokio = { version = "1", features = ["macros", "rt-multi-thread", "fs", "time", "sync"] }
slog = "2"
slog-async = "2"
slog-json = "2"
slog-term = "2"
