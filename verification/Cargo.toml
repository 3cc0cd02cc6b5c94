[package]
name = "axum_rate_limiter"
version = "0.1.0"
edition = "2021"
publish = false

[dependencies]
axum = "0.8"
axum-client-ip = "*"
jiff = "0.2"
redis = { version = "*", features = ["aio", "tokio-comp"] }
serde = { version = "1", features = ["derive"] }
serde_json = "1"
tiktoken-rs = "*"
tokio = { version = "1", features = ["full"] }
tracing = "0.1"
tracing-subscriber = "0.3"
