[package]
name = "wave"
version = "0.1.0"
edition = "2021"
publish = false

[dependencies]
base64 = "=0.22.1"
sha2 = "=0.10.9"
image = { version = "=0.25.10", default-features = false, features = ["jpeg", "png", "gif", "webp", "bmp"] }
serde = { version = "=1.0.229", features = ["derive"] }
serde_json = "=1.0.154"
clap = { version = "=4.6.7", features = ["derive"] }
roxmltree = "=0.21.2"
fs4 = "=1.1.0"
uuid = { version = "=1.29.0", features = ["v4"] }
url = "2"
walkdir = "2"
