[package]
name = "bft_core"
version = "0.1.0"
edition = "2021"
publish = false

[dependencies]
anyhow = "=1.0.104"
bincode = "=1.3.3"
bytes = "=1.12.1"
casper-contract = { version = "=5.1.1", default-features = false }
casper-types = { version = "=6.1.0", features = ["std"] }
futures = "=0.3.34"
num-rational = { version = "=0.4.2", default-features = false }
pin-project = "=1.1.13"
rand = "=0.8.8"
serde = { version = "=1.0.229", features = ["derive"] }
thiserror = "=1.0.69"
tracing = "=0.1.44"
