[package]
name = "hako"
version = "0.1.0"
edition = "2021"
publish = false

[dependencies]
aead = { version = "=0.5.2", features = ["alloc", "stream"] }
chacha20poly1305 = "=0.10.1"
hkdf = "=0.12.4"
sha2 = "=0.10.9"
getrandom = "=0.2.17"
axum = { version = "=0.8.9", features = ["multipart"] }
tokio = { version = "=1.53.2", features = ["rt-multi-thread", "macros", "net", "time", "sync"] }
clap = { version = "=4.6.7", features = ["derive", "env"] }
serde = { version = "=1.0.229", features = ["derive"] }
serde_json = "=1.0.151"
base64 = "=0.23.1"
