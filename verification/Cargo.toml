[package]
name = "aureum"
version = "0.1.0"
edition = "2021"
publish = false

[dependencies]
sha1 = "=0.10.7"
sha2 = "=0.10.9"
hex = "=0.4.3"
base64 = "=0.22.1"
urlencoding = "=2.1.3"
serde = { version = "=1.0.229", features = ["derive"] }
serde_json = "=1.0.154"
uuid = { version = "=1.29.0", features = ["v4"] }
chrono = "=0.4.45"
walkdir = "=2.5.0"
zip = { version = "=2.6.1", default-features = false, features = ["deflate"] }
image = { version = "=0.25.10", default-features = false, features = ["png", "jpeg", "gif", "webp"] }
rand = "=0.8.8"
which = "=8.0.6"
sysinfo = "=0.40.1"
open = "=5.4.5"
dotenvy = "=0.15.7"
reqwest = { version = "0.12", default-features = false, features = ["blocking", "rustls-tls"] }
