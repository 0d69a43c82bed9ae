[package]
name = "lob"
version = "0.1.0"
edition = "2021"
publish = false

[dependencies]
tokio = { version = "*", features = ["full"] }
tokio-tungstenite = "*"
futures = "*"
serde = { version = "*", features = ["derive"] }
serde_json = "*"
serde_with = "*"
flate2 = "*"
clap = { version = "*", features = ["derive"] }
tracing = "*"
tracing-subscriber = "*"
