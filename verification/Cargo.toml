[package]
name = "stream_ops"
version = "0.1.0"
edition = "2021"
publish = false

[dependencies]
tokio = { version = "1", features = ["time"] }
tokio-stream = { version = "0.1", features = ["time"] }
pin-project-lite = "0.2"
