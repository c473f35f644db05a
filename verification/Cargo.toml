[package]
name = "cold_tools"
version = "0.1.0"
edition = "2021"
publish = false

[dependencies]
base64 = "0.22"
glob = "0.3"
regex = "1"
serde = { version = "1", features = ["derive"] }
serde_json = "1"
tokio = { version = "1", features = ["fs", "process", "time", "rt", "rt-multi-thread", "macros", "sync", "io-util"] }
walkdir = "2"
