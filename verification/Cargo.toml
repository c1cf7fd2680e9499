[package]
name = "shard_pipeline"
version = "0.1.0"
edition = "2021"
publish = false

[dependencies]
csv = "1"
regex = "1"
tar = "0.4"
image = { version = "0.25", default-features = false, features = ["png"] }
web3 = "*"
ipfs-api = "*"
futures = "0.3"
rust-ini = "*"
log = "0.4"
env_logger = "*"
rulinalg = "*"
