[package]
name = "lnemail"
version = "0.1.0"
edition = "2021"
publish = false

[dependencies]
aes = "*"
base64 = "0.22"
cbc = { version = "*", features = ["alloc"] }
chrono = "0.4"
getrandom = "0.2"
hkdf = "*"
hmac = "*"
mailparse = "*"
qrcode = { version = "*", default-features = false }
reqwest = { version = "0.12", default-features = false, features = ["rustls-tls", "hickory-dns"] }
serde_json = "1"
sha2 = "*"
tokio = { version = "1", features = ["rt", "time"] }
