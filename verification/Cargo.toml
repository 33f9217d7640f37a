[package]
name = "scramjet"
version = "0.1.0"
edition = "2021"
publish = false

[dependencies]
solana-sdk = "=2.3.1"
tokio = { version = "1", features = ["full"] }
quinn = "0.11"
rustls = "0.23"
rcgen = "0.13"
log = "0.4"
dotenv = "0.15"
anyhow = "1"
bincode = "1"
serde = "1"
serde_json = "1"
