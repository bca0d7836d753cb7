[package]
name = "devilchain"
version = "0.1.0"
edition = "2021"
publish = false

[dependencies]
sha2 = "=0.10.9"
hex = "=0.4.3"
ed25519-dalek = "=2.2.0"
rand = "=0.8.8"
serde = { version = "=1.0.229", features = ["derive"] }
serde_json = "=1.0.154"
anyhow = "=1.0.104"
log = "=0.4.35"
env_logger = "=0.11.11"
tokio = { version = "=1.54.1", features = ["rt-multi-thread", "macros", "net", "time", "signal", "sync"] }
axum = "=0.7.9"
tower-http = { version = "=0.5.2", features = ["cors"] }
async-graphql = "=7.0.19"
async-graphql-axum = "=7.0.19"
reqwest = { version = "=0.12.28", default-features = false, features = ["json"] }
rocksdb = { version = "=0.22.0", default-features = false }
base64 = "=0.22.1"
