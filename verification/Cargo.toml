[package]
name = "watch_engine"
version = "0.1.0"
edition = "2021"
publish = false

[dependencies]
async-trait = "0.1"
notify = "6"
tokio = { version = "1", features = ["fs", "time"] }
tracing = "0.1"
