[package]
name = "socks"
version = "0.1.0"
edition = "2021"
publish = false

[dependencies]
base64 = "0.13"
bytes = "1"
dirs = "4"
rand = "0.8"
serde = { version = "1", features = ["derive"] }
serde_json = "1"
structopt = "0.3"
tokio = { version = "1", features = ["full"] }
tracing = "0.1"
tracing-subscriber = "0.3"
