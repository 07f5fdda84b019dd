[package]
name = "kappa_store"
version = "0.1.0"
edition = "2021"
publish = false

[dependencies]
aes-gcm = "=0.10.3"
blake3 = "=1.8.7"
crc-fast = "=1.10.0"
getrandom = "=0.3.4"
hex = "=0.4.3"
md-5 = "=0.10.6"
redb = "=3.1.3"
serde = { version = "=1.0.229", features = ["derive"] }
serde_json = "=1.0.154"
thiserror = "=2.0.21"
uuid = { version = "=1.29.0", features = ["v4"] }

[dev-dependencies]
sha2 = "0.10"
