[package]
name = "omegga"
version = "0.1.0"
edition = "2021"
publish = false

[dependencies]
dashmap = "*"
tokio = { version = "*", features = ["sync", "io-std", "io-util", "rt", "rt-multi-thread", "macros"] }
serde_json = "*"
