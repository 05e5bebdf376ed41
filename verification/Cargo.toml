[package]
name = "ai_lib"
version = "1.0.1"
edition = "2021"
publish = false

[dependencies]
arc-swap = "1"
async-trait = "0.1"
base64 = "0.22"
bytes = "1"
futures = "0.3"
keyring = "3"
lru = "0.12"
regex = "1"
reqwest = { version = "0.12", default-features = false, features = ["json", "stream", "multipart", "http2", "rustls-tls"] }
serde = { version = "1", features = ["derive"] }
serde_json = "1"
serde_yaml = "0.9"
thiserror = "1"
tokio = { version = "1", features = ["rt-multi-thread", "macros", "sync", "time", "fs"] }
tracing = "0.1"
