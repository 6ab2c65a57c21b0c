[package]
name = "loadstone"
version = "0.1.0"
edition = "2021"
publish = false

[dependencies]
crc = "=3.4.0"
p256 = { version = "=0.13.2", features = ["ecdsa", "sha256", "pem"] }
sha2 = "=0.10.9"
serde = { version = "=1.0.229", features = ["derive"] }
ron = "=0.8.1"
anyhow = "=1.0.104"
quote = "=1.0.47"
syn = "=2.0.119"
