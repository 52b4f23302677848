[package]
name = "gemini_acp"
version = "0.1.0"
edition = "2021"
publish = false

[dependencies]
agent-client-protocol = { version = "=2.2.0", features = ["unstable_session_fork"] }
anyhow = "=1.0.104"
axum = "=0.8.9"
base64 = "=0.22.1"
futures-util = "=0.3.34"
hex = "=0.4.3"
notify = "=8.2.1"
regex = "=1.13.1"
reqwest = { version = "=0.12.28", default-features = false, features = ["stream", "rustls-tls"] }
serde = { version = "=1.0.229", features = ["derive"] }
serde_json = { version = "=1.0.154", features = ["preserve_order"] }
sha1 = "=0.10.7"
tokio = { version = "=1.54.1", features = ["full"] }
tokio-stream = "=0.1.19"
tracing = "=0.1.44"
tracing-subscriber = { version = "=0.3.23", features = ["env-filter"] }
uuid = { version = "=1.29.0", features = ["v4"] }
