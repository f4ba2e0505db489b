[package]
name = "bs3"
version = "0.1.0"
edition = "2021"
publish = false

[dependencies]
ciborium = "0.2"
digest = "0.10"
sha3 = "0.10"
hex = "0.4"
serde = { version = "1", features = ["derive"] }
serde_json = "1"
log = "0.4"
rand = "0.8"
sled = "0.34"
