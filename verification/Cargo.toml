[package]
name = "getcat"
version = "0.1.0"
edition = "2021"
publish = false

[dependencies]
anyhow = "=1.0.104"
bytes = "=1.12.1"
futures = "=0.3.34"
memchr = "=2.8.3"
reqwest = { version = "=0.12.28", default-features = false, features = ["gzip", "http2", "multipart", "rustls-tls", "stream"] }
serde = { version = "=1.0.229", features = ["derive"] }
serde_json = "=1.0.154"
tempfile = "=3.27.0"
tokio = { version = "=1.54.1", features = ["full"] }
tracing = "=0.1.44"
tracing-subscriber = { version = "=0.3.23", features = ["env-filter"] }
ulid = "=3.0.0"
url = "=2.5.8"
uuid = { version = "=1.29.0", features = ["v4"] }
