[package]
name = "stream_recorder"
version = "0.1.0"
edition = "2021"
publish = false

[dependencies]
uuid = { version = "*", features = ["v4"] }
serde = { version = "*", features = ["derive"] }
serde_json = "*"
jsonwebtoken = "*"
chrono = "*"
