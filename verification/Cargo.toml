[package]
name = "beacon_availability"
version = "0.1.0"
edition = "2021"
publish = false

[dependencies]
actix-web = { version = "=4.18.1", default-features = false, features = ["macros"] }
alloy-primitives = { version = "=1.7.3", default-features = false }
anyhow = { version = "=1.0.104", default-features = false }
ethereum_ssz = "=0.9.1"
libp2p = { version = "=0.56.0", default-features = false, features = ["gossipsub"] }
serde = { version = "=1.0.229", features = ["derive"] }
serde_yaml = "=0.9.34"
sha2 = "=0.10.9"
ssz_types = "=0.11.0"
tokio = { version = "=1.54.1", default-features = false, features = ["sync", "rt"] }
tracing = { version = "=0.1.44", default-features = false }
tree_hash = "=0.10.0"
