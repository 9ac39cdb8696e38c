[package]
name = "mcp-gateway-hub"
version = "0.1.0"
edition = "2021"
publish = false

[dependencies]
serde_json = "1"
uuid = { version = "1", features = ["v4"] }
serde = { version = "1", features = ["derive"] }
serde_yaml = "0.9"
anyhow = "1"
tokio = { version = "1", features = ["full"] }
axum = "0.8"
jsonwebtoken = "9"
tower-http = { version = "0.6", features = ["cors"] }
tracing = "0.1"
tracing-subscriber = { version = "0.3", features = ["env-filter"] }
rmcp = { version = "*", features = ["client", "transport-child-process"] }
