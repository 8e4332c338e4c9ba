[package]
name = "blastview"
version = "0.1.0"
edition = "2021"
publish = false

[dependencies]
uuid = { version = "*", features = ["v4"] }
flume = "*"
axum = { version = "*", features = ["ws"] }
tokio = { version = "*", features = ["rt-multi-thread", "macros", "net", "time", "sync"] }
tokio-util = "*"
futures = "*"
dashmap = "*"
serde = { version = "*", features = ["derive"] }
serde_json = "*"
