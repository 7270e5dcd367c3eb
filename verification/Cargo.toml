[package]
name = "quiz"
version = "0.1.0"
edition = "2021"
publish = false

[dependencies]
anyhow = "1"
async-trait = "0.1"
env_logger = "0.10"
hyper = { version = "0.14", features = ["server", "client", "http1", "tcp"] }
hyper-rustls = "0.24"
log = "0.4"
querystring = "1"
rand = "0.8"
serde = { version = "1", features = ["derive"] }
serde_json = "1"
tokio = { version = "1", features = ["full"] }
urldecode = "0.1"
