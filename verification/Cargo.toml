[package]
name = "peercode"
version = "0.1.0"
edition = "2021"
publish = false

[dependencies]
url = "2"
rand = "0.8"
hex = "0.4"
serde = { version = "1", features = ["derive"] }
serde_json = "1"
toml = "0.8"
log = "0.4"
tokio = { version = "1", features = ["rt", "sync", "time", "macros"] }
reqwest = { version = "0.12", default-features = false, features = ["json", "rustls-tls"] }
local-ip-address = "0.6"
