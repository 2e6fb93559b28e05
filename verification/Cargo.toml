[package]
name = "esl_rs"
version = "0.1.0"
edition = "2021"
publish = false

[dependencies]
serde_json = "*"
uuid = { version = "*", features = ["v4"] }
tokio = { version = "*", features = ["net", "sync", "rt", "rt-multi-thread", "time", "io-util", "macros"] }
