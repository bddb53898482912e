[package]
name = "dns_authority"
version = "0.1.0"
edition = "2021"
publish = false

[dependencies]
anyhow = "=1.0.104"
async-trait = "=0.1.92"
config = "=0.15.27"
hickory-proto = "=0.26.3"
hickory-server = "=0.26.3"
serde = { version = "=1.0.229", features = ["derive"] }
tokio = { version = "=1.53.2", features = ["rt-multi-thread", "macros", "net", "sync"] }
