[package]
name = "cybersnatcher"
version = "0.1.0"
edition = "2021"
publish = false

[dependencies]
aes = "=0.8.4"
cbc = "=0.1.2"
block-padding = "=0.3.3"
url = "=2.5.8"
regex = "=1.13.1"
scraper = "=0.29.0"
roxmltree = "=0.21.2"
dash-mpd = { version = "=0.20.5", default-features = false }
serde = { version = "=1.0.229", features = ["derive"] }
serde_json = "=1.0.154"
csv = "=1.4.0"
reqwest = { version = "=0.12.28", default-features = false, features = ["rustls-tls", "json", "blocking", "stream"] }
tokio = { version = "=1.54.1", features = ["full"] }
futures-util = "=0.3.34"
dirs = "=7.0.0"
log = "=0.4.35"
gif = "=0.14.2"
