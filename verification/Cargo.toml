[package]
name = "crabdrop"
version = "0.1.0"
edition = "2021"
publish = false

[dependencies]
anyhow = "1"
argon2 = "0.5"
aws-sdk-s3 = "1"
bimap = { version = "0.6", features = ["serde"] }
chacha20poly1305 = "0.10"
dirs = "6"
keyring = "3"
serde = { version = "1", features = ["derive"] }
serde_json = "1"
tokio = { version = "1", features = ["full"] }
toml = "0.8"
uuid = { version = "1", features = ["v4"] }
walkdir = "2"
