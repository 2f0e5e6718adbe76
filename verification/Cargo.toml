[package]
name = "sit"
version = "0.1.0"
edition = "2021"
publish = false

[dependencies]
url = "2"
regex = "1"
scraper = "*"
base64 = "0.22"
sha2 = "0.10"
urlencoding = "2"
serde_json = "1"
tokio = { version = "1", features = ["macros", "rt-multi-thread", "fs", "io-util"] }
reqwest = { version = "0.12", default-features = false, features = ["json", "rustls-tls"] }
dialoguer = "0.11"
indicatif = "0.17"
