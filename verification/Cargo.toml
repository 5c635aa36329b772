[package]
name = "pcg"
version = "0.1.0"
edition = "2021"
publish = false

[dependencies]
union-find = "*"
serde = { version = "*", features = ["derive"] }
serde_json = "*"
axum = { version = "*", features = ["multipart"] }
tokio = { version = "*", features = ["full"] }
tower-http = { version = "*", features = ["fs"] }
uuid = { version = "*", features = ["v4"] }
tracing = "*"
tracing-subscriber = "*"
