[package]
name = "editor_backend"
version = "0.1.0"
edition = "2021"
publish = false

[dependencies]
agent-client-protocol = "1.3"
anyhow = "=1.0.104"
chrono = { version = "=0.4.45", features = ["serde"] }
log = "=0.4.35"
serde = { version = "=1.0.229", features = ["derive"] }
serde_json = "=1.0.154"
time = "=0.3.55"
url = "=2.5.8"
uuid = { version = "=1.29.0", features = ["v4"] }
