[package]
name = "iphone_queue"
version = "0.1.0"
edition = "2021"
publish = false

[dependencies]
serde_json = "1"
exonum-merkledb = "0.12"
exonum-crypto = "0.12"
