[package]
name = "hash_miner"
version = "0.2.0"
edition = "2021"
publish = false

[dependencies]
dotenvy = "0.15"
hex = "0.4"
keccak-hash = "0.10"
num_cpus = "1"
ocl = "0.19"
rand = "0.8"
reqwest = { version = "0.12", default-features = false, features = ["json", "rustls-tls"] }
serde_json = "1"
tokio = { version = "1", features = ["rt-multi-thread"] }
