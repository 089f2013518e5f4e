[package]
name = "xmtv_cast"
version = "0.1.0"
edition = "2021"
publish = false

[dependencies]
serde_json = "1"
chrono = "0.4"
rand = "0.8"
xml-rs = "0.8"
crab-dlna = "*"
tokio = { version = "1", features = ["full"] }
reqwest = { version = "0.11", default-features = false, features = ["blocking", "rustls-tls"] }
url = "2"
dialoguer = "*"
env_logger = "*"
log = "0.4"
anyhow = "1"
serde = { version = "1", features = ["derive"] }
