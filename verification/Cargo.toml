[package]
name = "spider"
version = "0.1.0"
edition = "2021"
publish = false

[dependencies]
base64 = "=0.23.1"
chacha20poly1305 = "=0.11.0"
ip_rfc = "=0.1.0"
lru = "=0.18.5"
rand = "=0.8.8"
rsa = "=0.9.10"
serde = { version = "=1.0.229", features = ["derive"] }
serde_json = "=1.0.151"
sha256 = "=1.6.0"
tokio = { version = "=1.53.2", features = ["full"] }
toml = "=1.1.6"
