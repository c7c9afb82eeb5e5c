[package]
name = "syncpond"
version = "0.1.0"
edition = "2021"
publish = false

[dependencies]
anyhow = "1"
async-trait = "0.1"
futures-util = "0.3"
jsonwebtoken = "=8.3.0"
lru = "=0.19.0"
rocksdb = { version = "=0.25.0", default-features = false }
serde = { version = "1", features = ["derive"] }
serde_json = "=1.0.154"
serde_yaml = "0.9"
subtle = "=2.6.1"
tokio = { version = "1", features = ["full"] }
tokio-tungstenite = "=0.21.0"
tonic = "=0.11.0"
tonic-reflection = "0.11"
tracing = "0.1"
tracing-subscriber = { version = "0.3", features = ["env-filter"] }
uuid = { version = "1", features = ["v4"] }
