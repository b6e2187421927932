[package]
name = "safetensors_core"
version = "0.1.0"
edition = "2021"
publish = false

[dev-dependencies]
safetensors = "*"
serde_json = "*"
