[package]
name = "hoplite"
version = "0.1.0"
edition = "2021"
publish = false

[dependencies]
sha2 = "0.10"
base64 = "0.22"
ed25519-dalek = "2"
p256 = "0.13"
getrandom = "0.2"
serde_json = "1"
semver = "1"
rusqlite = { version = "*", features = ["bundled"] }

[dev-dependencies]
