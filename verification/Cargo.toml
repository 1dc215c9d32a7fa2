[package]
name = "ce_core"
version = "0.1.0"
edition = "2021"
publish = false

[dependencies]
rand = "0.9"
serde = { version = "1", features = ["derive"] }
serde_json = "1"
roxmltree = "0.20"
dunce = "1"
toml = "0.8"
