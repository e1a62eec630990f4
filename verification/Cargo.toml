[package]
name = "peerstore"
version = "0.1.0"
edition = "2021"
publish = false

[dependencies]
aes = "0.7"
block-modes = "0.8"
hmac = "0.11"
sha2 = "0.9"
rand = "0.8"
sys-info = "0.9"
serde = { version = "1", features = ["derive"] }
serde_json = "1"
