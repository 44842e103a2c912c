[package]
name = "causal_decoder"
version = "0.1.0"
edition = "2021"
publish = false

[dependencies]
safetensors = "*"
serde = { version = "*", features = ["derive"] }
serde_json = "*"
metal = "*"

[dev-dependencies]
tempfile = "*"
