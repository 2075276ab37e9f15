[package]
name = "mailbox"
version = "0.1.0"
edition = "2021"
publish = false

[dependencies]
fjall = "=2.11.2"
chrono = { version = "=0.4.45", features = ["serde"] }
axum = "*"
tokio = { version = "*", features = ["full"] }
serde = { version = "*", features = ["derive"] }
serde_json = "*"
dashmap = "*"
futures = "*"
thiserror = "*"
tracing = "*"
tracing-subscriber = { version = "*", features = ["env-filter"] }
dotenvy = "*"
tower_governor = "*"
web-push = "*"
