[package]
name = "follower_notifier"
version = "0.1.0"
edition = "2021"
publish = false

[dependencies]
uuid = { version = "*", features = ["v4"] }
chrono = "*"
axum = "*"
tokio = { version = "*", features = ["rt-multi-thread", "net", "macros"] }
tower-http = { version = "*", features = ["cors", "fs"] }
serde_json = "*"
