[package]
name = "omatide"
version = "0.1.0"
edition = "2021"
publish = false

[dependencies]
serde_json = "1"
tokio = { version = "1", features = ["rt", "net", "io-util", "sync", "time", "signal", "macros"] }
libc = "0.2"
