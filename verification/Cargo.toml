[package]
name = "shade_oracles"
version = "0.1.0"
edition = "2021"
publish = false

[dependencies]
cosmwasm-std = "=1.5.11"
cosmwasm-schema = "=1.5.11"
serde = { version = "1", features = ["derive"] }
schemars = "0.8"
thiserror = "1"
anyhow = "1"
paste = "1"
secret-toolkit = "*"
