[package]
name = "torrs"
version = "0.1.0"
edition = "2021"
publish = false

[dependencies]
serde = { version = "1", features = ["derive"] }
serde_bencode = "0.2"
serde_bytes = "0.11"
serde_json = "1"
sha1 = "0.10"
hex = "0.4"
data-encoding = "2"
percent-encoding = "2"
url = "2"
rand = "0.8"
tokio = { version = "1", features = ["full"] }
reqwest = { version = "0.12", default-features = false, features = ["rustls-tls"] }
futures = "0.3"
clap = { version = "4", features = ["derive"] }
