[package]
name = "referee_codec"
version = "0.1.0"
edition = "2021"
publish = false

[dependencies]
pyo3 = "*"
pythonize = "*"
serde = { version = "*", features = ["derive"] }
