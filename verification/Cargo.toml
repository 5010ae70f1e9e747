[package]
name = "arenabuddy"
version = "0.1.0"
edition = "2021"
publish = false

[dependencies]
anyhow = "=1.0.104"
chrono = { version = "=0.4.45", features = ["serde"] }
crossbeam-channel = "=0.5.17"
indoc = "=2.0.8"
itertools = "=0.14.0"
notify = "=8.2.1"
reqwest = { version = "=0.12.28", default-features = false, features = ["blocking", "json"] }
rusqlite = { version = "=0.37.0", features = ["bundled", "chrono"] }
serde = { version = "=1.0.229", features = ["derive"] }
serde_json = "=1.0.154"
tauri = { version = "2", default-features = false }
tracing = "=0.1.44"
tracing-appender = "=0.2.5"
tracing-subscriber = "=0.3.23"
