[package]
name = "redlib"
version = "0.1.0"
edition = "2021"
publish = false

[dependencies]
aes = "=0.8.4"
aes-gcm = "=0.10.3"
base64 = "=0.22.1"
cbc = { version = "=0.1.2", features = ["alloc", "block-padding"] }
hkdf = "=0.12.4"
pbkdf2 = "=0.12.2"
percent-encoding = "=2.3.2"
rand = "=0.8.8"
regex = "=1.13.1"
rusqlite = { version = "=0.41.1", features = ["bundled"] }
serde = { version = "=1.0.229", features = ["derive"] }
serde_json = "=1.0.154"
shellexpand = "3"
sha1 = "=0.10.7"
sha2 = "=0.10.9"
toml = "=0.8.23"
url = "=2.5.8"
uuid = { version = "=1.29.0", features = ["v4"] }
