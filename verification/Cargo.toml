[package]
name = "risingwave_core"
version = "0.1.0"
edition = "2021"
publish = false

[dependencies]
futures = "0.3"
num-traits = "0.2"
tokio = { version = "1", default-features = false, features = ["rt", "sync"] }
tokio-stream = { version = "0.1", default-features = false }
tracing = "0.1"
