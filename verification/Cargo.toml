[package]
name = "vertebrae"
version = "0.1.0"
edition = "2021"
publish = false

[dependencies]
async-recursion = "1"
notify = "6"
ron = "0.8"
serde = { version = "1", features = ["derive"] }
serde_json = "1"
sha256 = { version = "1", default-features = false }
thiserror = "1"
tokio = { version = "1", features = ["fs", "io-util", "macros", "rt-multi-thread", "signal", "sync", "time"] }
tokio-util = "0.7"
tracing = "0.1"
tracing-subscriber = "0.3"
