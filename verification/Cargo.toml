[package]
name = "lector"
version = "0.1.0"
edition = "2021"
publish = false

[dependencies]
dirs = "=6.0.0"
serde = { version = "=1.0.229", features = ["derive"] }
toml = "=0.8.23"
