[package]
name = "rabbitmq_stream_client"
version = "0.1.0"
edition = "2021"
publish = false

[dependencies]
async-trait = "0.1"
bytes = "1"
dashmap = "*"
futures = "0.3"
pin-project = "1"
rabbitmq-stream-protocol = "*"
tokio = { version = "1", features = ["full"] }
tokio-rustls = "*"
tokio-util = { version = "0.7", features = ["codec"] }
tracing = "0.1"
