[package]
name = "mcp_core"
version = "0.1.0"
edition = "2021"
publish = false

[dependencies]
base64 = "*"
rand = "*"
axum = "*"
tokio = { version = "*", features = ["rt-multi-thread", "sync", "time", "net"] }
tower = { version = "*", features = ["util"] }
futures = "*"
tokio-stream = "*"
tokio-util = "*"
serde = { version = "*", features = ["derive"] }
serde_json = "*"
tracing = "*"
tracing-subscriber = { version = "*", features = ["env-filter"] }

[dev-dependencies]
