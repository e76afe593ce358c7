[package]
name = "vision_autoresearch"
version = "1.0.0"
edition = "2021"
publish = false

[dependencies]
kstring = "=2.0.2"
pyo3 = { version = "=0.22.6", features = ["abi3-py38", "extension-module"] }
rayon = "=1.12.0"
serde = { version = "=1.0.229", features = ["derive"] }
serde_json = "=1.0.154"
tract-onnx = "=0.21.19"
