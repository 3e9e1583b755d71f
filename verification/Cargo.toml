[package]
name = "cashu-rs-mint"
version = "0.1.0"
edition = "2021"
publish = false

[dependencies]
anyhow = "=1.0.104"
async-trait = "=0.1.92"
axum = "=0.6.20"
bitcoin = "=0.32.102"
bitcoin_hashes = "=0.12.0"
cashu = "=0.18.2"
clap = { version = "=4.6.7", features = ["derive"] }
cln-rpc = "=0.1.9"
config = "=0.13.4"
dirs = "=5.0.1"
futures = "=0.3.34"
rand = "=0.8.8"
redb = "=1.5.2"
serde = { version = "=1.0.229", features = ["derive"] }
serde_json = "=1.0.154"
tokio = { version = "=1.54.1", features = ["full"] }
tower-http = { version = "=0.4.4", features = ["cors"] }
tracing = "=0.1.44"
tracing-subscriber = "=0.3.23"
uuid = { version = "=1.29.0", features = ["v4"] }
