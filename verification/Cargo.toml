[package]
name = "cashu_escrow"
version = "0.1.0"
edition = "2021"
publish = false

[dependencies]
anyhow = "=1.0.104"
cdk = { version = "=0.18.1", default-features = false, features = ["wallet"] }
cdk-sqlite = "=0.18.1"
nostr-sdk = "=0.35.0"
rand = "=0.10.3"
serde = { version = "=1.0.229", features = ["derive"] }
serde_json = "=1.0.151"
sha2 = "=0.11.0"
tokio = { version = "=1.53.2", features = ["rt-multi-thread", "macros", "time", "sync"] }
