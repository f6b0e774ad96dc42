[package]
name = "oxidarr"
version = "0.1.0"
edition = "2021"
publish = false

[dependencies]
regex = "=1.13.1"
fancy-regex = "=0.20.0"
scraper = "=0.29.0"
chrono = "=0.4.45"
url = "=2.5.8"
encoding_rs = "=0.8.44"
quick-xml = "=0.42.0"
serde = { version = "=1.0.229", features = ["derive"] }
serde_json = "=1.0.154"
serde_yaml_ng = "=0.10.0"
thiserror = "2"
rand = "0.8"
tokio = { version = "1", features = ["rt-multi-thread", "macros"] }
axum = "0.8"
reqwest = { version = "0.12", default-features = false, features = ["rustls-tls", "cookies", "gzip"] }
sqlx = { version = "0.8", default-features = false, features = ["sqlite", "runtime-tokio", "migrate"] }
