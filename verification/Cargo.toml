[package]
name = "taygedo"
version = "0.5.0"
edition = "2021"
publish = false

[dependencies]
aes = "0.8"
aes-gcm = "0.10"
base64 = "0.22"
chrono = { version = "0.4", default-features = false, features = ["clock", "std"] }
md5 = "0.7"
rand = "0.8"
scrypt = { version = "0.11", default-features = false }
sha2 = "0.10"
url = "2"
uuid = { version = "1", features = ["v4"] }
zeroize = "1"
x25519-dalek = { version = "2", features = ["static_secrets"] }
serde = { version = "1", features = ["derive"] }
serde_json = "1"
tokio = { version = "1", features = ["rt-multi-thread", "macros", "net", "time", "sync"] }
axum = "0.8"
reqwest = { version = "0.12", default-features = false, features = ["rustls-tls"] }
