[package]
name = "webtools"
version = "0.1.0"
edition = "2021"
publish = false

[dependencies]
scraper = "*"
url = "2"
serde_json = "1"
regex = "1"
serde = { version = "1", features = ["derive"] }
anyhow = "1"
clap = { version = "4", features = ["derive"] }
tokio = { version = "1", features = ["full"] }
reqwest = { version = "0.12", default-features = false, features = ["rustls-tls", "gzip", "brotli"] }
rustls-native-certs = "0.8"
urlencoding = "2"
