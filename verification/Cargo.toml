[package]
name = "morphogenetic_security"
version = "0.1.0"
edition = "2021"
publish = false

[dependencies]
rand = "0.8"
md5 = "0.7"
ed25519-dalek = "2"
serde = { version = "1", features = ["derive"] }
serde_json = "1"
serde_yaml = "0.9"
csv = "1"
