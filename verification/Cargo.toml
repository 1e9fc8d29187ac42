[package]
name = "anytask"
version = "0.1.0"
edition = "2021"
publish = false

[dependencies]
url = "2"
prost-types = "*"
serde = { version = "1", features = ["derive"] }
serde_json = "1"
dirs = "*"
keyring-core = "*"
zeroize = "*"
