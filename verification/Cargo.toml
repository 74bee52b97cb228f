[package]
name = "unicity_nostr"
version = "0.1.0"
edition = "2021"
publish = false

[dependencies]
k256 = { version = "0.13", features = ["schnorr", "ecdh"] }
sha2 = "0.10"
hkdf = "0.12"
chacha20poly1305 = "0.10"
aes = "0.8"
cbc = { version = "0.1", features = ["alloc", "block-padding"] }
aes-gcm = "0.10"
base64 = "0.22"
hex = "0.4"
flate2 = "1"
serde = { version = "1", features = ["derive"] }
serde_json = "1"
thiserror = "2"
tungstenite = "0.24"
