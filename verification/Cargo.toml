[package]
name = "pg_relay"
version = "0.0.1"
edition = "2021"
publish = false

[dependencies]
anyhow = "=1.0.104"
async-trait = "=0.1.92"
bytes = "=1.12.1"
chrono = { version = "=0.4.38", features = ["serde"] }
dashmap = "=5.5.3"
pgrx = { version = "=0.18.1", features = ["pg18"] }
serde = { version = "=1.0.229", features = ["derive"] }
serde_json = "=1.0.154"
tokio = { version = "=1.54.1", features = ["full"] }
tracing = "=0.1.44"
tracing-subscriber = "0.3"
ureq = { version = "=2.12.1", features = ["json"] }
uuid = { version = "=1.29.0", features = ["v4"] }
