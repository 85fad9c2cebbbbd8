[package]
name = "resp_codec"
version = "0.1.0"
edition = "2021"
publish = false

[dependencies]
bytes = "*"
anyhow = "*"
tracing = "*"
tokio = { version = "*", features = ["net", "rt-multi-thread", "macros", "io-util"] }
tokio-stream = "*"
tokio-util = { version = "*", features = ["codec"] }
