[package]
name = "cloudmqtt"
version = "0.1.0"
edition = "2021"
publish = false

[dependencies]
arc-swap = "1"
dashmap = "5"
async-trait = "0.1"
futures = "0.3"
thiserror = "1"
tokio = { version = "1", features = ["rt", "rt-multi-thread", "net", "io-util", "sync", "time", "macros"] }
tokio-util = { version = "0.7", features = ["codec"] }
