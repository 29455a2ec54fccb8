[package]
name = "dotling"
version = "0.6.0"
edition = "2021"
publish = false

[dependencies]
blake2 = "0.10"
chacha20poly1305 = "0.10"
argon2 = "0.5"
base64 = "0.22"
rand = "0.9"
clap = { version = "4", features = ["derive"] }
clap_complete = "4"
owo-colors = "4"
dirs = "5"
walkdir = "2"
serde = { version = "1", features = ["derive"] }
toml = "0.8"
thiserror = "2"

[dev-dependencies]
tempfile = "3"
