[package]
name = "dray"
version = "0.1.0"
edition = "2021"
publish = false

[dependencies]
rand = "0.9"
bincode = { version = "2", features = ["serde"] }
serde = { version = "1", features = ["derive"] }
tokio = { version = "1", features = ["full"] }
tokio-tungstenite = "*"
futures-util = "0.3"
minifb = "*"
