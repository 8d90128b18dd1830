[package]
name = "unbrowser"
version = "0.1.0"
edition = "2021"
publish = false

[dependencies]
anyhow = "=1.0.104"
base64 = "=0.22.1"
cookie = "=0.18.2"
cookie_store = "=0.22.1"
html5ever = "=0.39.0"
http = "=1.5.0"
markup5ever_rcdom = "=0.39.0"
rand = "=0.8.8"
rquickjs = "=0.11.0"
serde = { version = "=1.0.229", features = ["derive"] }
serde_json = "=1.0.154"
sha2 = "=0.10.9"
tokio = { version = "=1.54.1", features = ["rt", "macros", "io-util", "io-std", "time", "sync"] }
url = "=2.5.8"
