[package]
name = "tslib"
version = "0.1.0"
edition = "2021"
publish = false

[dependencies]
base64 = "0.22"
emojis = "=0.9.1"
regex = "=1.13.1"
rand = "=0.8.8"
serde = { version = "=1.0.229", features = ["derive"] }
serde_json = "=1.0.154"
tokio = { version = "=1.54.1", features = ["sync", "rt", "macros"] }
