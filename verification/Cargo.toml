[package]
name = "rust-passmgr"
version = "0.1.0"
edition = "2021"
publish = false

[dependencies]
aes-gcm = "=0.10.3"
anyhow = "=1.0.104"
argon2 = "=0.5.3"
base64 = "=0.22.1"
clap = { version = "=4.6.7", features = ["derive"] }
rand = "=0.8.8"
rpassword = "=7.5.4"
self_update = "=1.3.1"
serde = { version = "=1.0.229", features = ["derive"] }
serde_json = "=1.0.154"
zeroize = "=1.9.1"
