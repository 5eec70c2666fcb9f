[package]
name = "syncmob"
version = "0.1.0"
edition = "2021"
publish = false

[dependencies]
anyhow = "1"
argon2 = "0.5"
base64 = "0.22"
blake2 = "0.10"
chacha20poly1305 = "0.10"
chrono = { version = "0.4", default-features = false, features = ["clock"] }
directories = "6"
eframe = { version = "0.31", default-features = false, features = ["glow", "x11"] }
egui = { version = "0.31", default-features = false }
env_logger = { version = "0.11", default-features = false }
hex = "0.4"
if-addrs = "0.13"
log = "0.4"
qrcode = { version = "0.14", default-features = false }
rand = "0.9"
serde = { version = "1", features = ["derive"] }
serde_json = "1"
sha2 = "0.10"
snow = "0.10"
socket2 = { version = "0.5", features = ["all"] }
subtle = "2"
thiserror = "2"
zeroize = "1"

[dev-dependencies]
tempfile = "3"
x25519-dalek = { version = "2", features = ["static_secrets"] }
