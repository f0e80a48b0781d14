[package]
name = "server"
version = "0.1.0"
edition = "2021"
publish = false

[dependencies]
anyhow = "1"
ffmpeg-sidecar = "*"
n0-future = "*"
rand = "0.8"
serde = { version = "1", features = ["derive"] }
serde_json = "1"
tokio = { version = "1", features = ["full"] }
tokio-stream = "*"
tokio-util = { version = "*", features = ["io"] }
willow25 = "*"
