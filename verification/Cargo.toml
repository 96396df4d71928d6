[package]
name = "sentinel_cloud"
version = "0.1.0"
edition = "2021"
publish = false

[dependencies]
uuid = { version = "*", features = ["v4"] }
chrono = "*"
serde = { version = "*", features = ["derive"] }
axum = { version = "*", features = ["multipart"] }
tokio = { version = "*", features = ["full"] }
tower-http = { version = "*", features = ["cors"] }
tracing-subscriber = "*"
ndarray = "*"
ndarray-npy = "*"
