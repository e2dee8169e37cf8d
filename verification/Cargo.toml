[package]
name = "leech-core"
version = "0.1.0"
edition = "2021"
publish = false

[dependencies]
bytes = "1"
dashmap = "6"
lru = "0.12"
rand = "0.8"
regex = "1"
url = "2"
lol_html = "2"
serde = { version = "1", features = ["derive"] }
serde_json = "1"
parking_lot = "0.12"
tokio = { version = "1", features = ["full"] }
reqwest = { version = "0.12", default-features = false, features = ["rustls-tls", "cookies", "stream"] }
axum = "0.7"
futures-util = "0.3"
anyhow = "1"
thiserror = "1"
async-trait = "0.1"
tracing = "0.1"
tracing-subscriber = "0.3"
trust-dns-resolver = "0.23"
