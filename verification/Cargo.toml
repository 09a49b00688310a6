[package]
name = "keys_engine"
version = "0.1.0"
edition = "2021"
publish = false

[dependencies]
aes-gcm = "0.10"
base64 = "0.22"
chrono = "0.4"
getrandom = "0.2"
hmac = "0.12"
notify = "6"
rusqlite = "0.32"
secrecy = "0.10"
serde = { version = "1", features = ["derive"] }
serde_json = "1"
sha2 = "0.10"
thiserror = "2"
url = "2"
uuid = { version = "1", features = ["v4"] }
zeroize = "1"
