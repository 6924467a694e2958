[package]
name = "daydream_druid"
version = "0.1.0"
edition = "2021"
publish = false

[dependencies]
url = "=2.5.8"
serde = { version = "=1.0.229", features = ["derive"] }
serde_json = "=1.0.154"
dirs = "=3.0.2"
once_cell = "=1.21.4"
tokio = { version = "=0.2.25", features = ["rt-threaded", "macros", "sync"] }
matrix-sdk = { version = "=0.2.0", default-features = false, features = ["messages", "native-tls"] }
druid = "=0.6.0"
