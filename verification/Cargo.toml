[package]
name = "netplay"
version = "0.1.0"
edition = "2021"
publish = false

[dependencies]
axum = "0.8"
serde = { version = "1", features = ["derive"] }
serde_json = "1"
socketioxide = { version = "*", features = ["state"] }
tokio = { version = "1", features = ["full"] }
tower-http = { version = "0.6", features = ["cors"] }
