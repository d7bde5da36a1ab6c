[package]
name = "connector_cloudflare"
version = "0.1.0"
edition = "2021"
publish = false

[dependencies]
blake3 = "=1.8.7"
connectrpc = "=0.9.1"
hex = "=0.4.3"
http = "=1.5.0"
iddqd = { version = "=0.5.0", features = ["serde"] }
reqwest = { version = "=0.12.28", default-features = false, features = ["json", "rustls-tls"] }
serde = { version = "=1.0.229", features = ["derive"] }
serde_json = "=1.0.154"
tempfile = "=3.27.0"
thiserror = "=2.0.21"
tokio = { version = "=1.54.1", features = ["io-util", "macros", "process", "rt"] }
toml = "=1.1.8"
walkdir = "=2.5.0"
