[package]
name = "codex_memory"
version = "0.1.0"
edition = "2021"
publish = false

[dependencies]
chrono = { version = "=0.4.45", features = ["serde"] }
serde = { version = "=1.0.229", features = ["derive"] }
serde_yaml = "=0.9.34"
serde_json = "=1.0.154"
tokio = { version = "=1.54.1", features = ["fs", "time", "rt", "macros"] }
anyhow = "=1.0.104"
dirs = "=7.0.0"
libc = "=0.2.191"
tracing = "=0.1.44"
