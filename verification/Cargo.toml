[package]
name = "atlas_sphere"
version = "0.1.0"
edition = "2021"
publish = false

[dependencies]
blake2 = "=0.10.6"
sha2 = "=0.10.9"
sha3 = "0.10"
bs58 = "0.5"
hex = "=0.4.3"
primitive-types = { version = "=0.12.2", default-features = false }
serde = { version = "=1.0.229", features = ["derive"] }
serde_json = "=1.0.154"
tokio = { version = "=1.54.1", features = ["net", "io-util", "rt"] }
