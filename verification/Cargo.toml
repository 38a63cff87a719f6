[package]
name = "s3_streamer"
version = "0.1.0"
edition = "2021"
publish = false

[dependencies]
anyhow = "=1.0.104"
async-stream = "=0.3.6"
aws-config = { version = "=1.12.0", features = ["behavior-version-latest"] }
aws-sdk-s3 = "=1.152.0"
aws-types = "~1.6"
bytes = "=1.12.1"
pyo3 = { version = "=0.20.3", features = ["auto-initialize"] }
pyo3-asyncio = { version = "=0.20.0", features = ["tokio-runtime"] }
tokio = { version = "=1.54.1", features = ["rt-multi-thread", "sync"] }
tokio-stream = "=0.1.19"
