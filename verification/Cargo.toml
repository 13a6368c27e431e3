[package]
name = "neural_swarm_ai"
version = "0.1.0"
edition = "2021"
publish = false

[dependencies]
aes-gcm = "0.10"
hmac = "0.12"
sha2 = "0.10"
hkdf = "0.12"
x25519-dalek = { version = "2", features = ["static_secrets"] }
zstd = "0.13"
rand = "0.8"
serde = { version = "1", features = ["derive"] }
bincode = "1"
bytes = "1"
anyhow = "1"
tokio = { version = "1", features = ["rt-multi-thread", "macros", "sync", "time", "net"] }
sysinfo = "*"
ureq = "2"
futures = "0.3"
axum = { version = "0.7", features = ["ws"] }
tokio-tungstenite = "*"
candle-core = "0.8"
candle-nn = "0.8"
candle-transformers = "0.8"
tracing = "0.1"
