[package]
name = "mdserve"
version = "0.1.0"
edition = "2021"
publish = false

[dependencies]
anyhow = "=1.0.104"
axum = { version = "=0.7.9", features = ["ws"] }
futures-util = "=0.3.34"
markdown = "=1.0.0"
minijinja = { version = "=2.24.0", features = ["loader"] }
notify = "=8.2.1"
serde = { version = "=1.0.229", features = ["derive"] }
serde_json = "=1.0.154"
tokio = { version = "=1.54.1", features = ["rt-multi-thread", "macros", "net", "sync", "time"] }
tower-http = { version = "=0.6.11", features = ["cors"] }
