[package]
name = "zeptoclaw"
version = "0.1.0"
edition = "2021"
publish = false

[dependencies]
async-trait = "0.1"
base64 = "0.22"
chromiumoxide = "*"
futures = "0.3"
regex = "1"
reqwest = { version = "0.12", default-features = false }
serde_json = "1"
tokio = { version = "1", features = ["fs", "io-util", "macros", "process", "rt", "rt-multi-thread", "sync", "time"] }
tracing = "0.1"
