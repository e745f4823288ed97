[package]
name = "bakery"
version = "0.1.0"
edition = "2021"
publish = false

[dependencies]
blake3 = "*"
serde_json = "*"
serde = { version = "*", features = ["derive"] }
toml = "*"
clap = "*"
glob = "*"
which = "*"
eyre = "*"
thiserror = "*"
