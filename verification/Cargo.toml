[package]
name = "tchannel_rs"
version = "0.1.0"
edition = "2021"
publish = false

[dependencies]
bytes = "1"
tokio = { version = "1", features = ["rt", "rt-multi-thread", "net", "sync", "macros", "time", "io-util"] }
tokio-util = { version = "0.7", features = ["codec"] }
tokio-stream = "0.1"
futures = "0.3"
bb8 = "0.8"
async-trait = "0.1"
thiserror = "1"
log = "0.4"
serde_json = "1"
