[package]
name = "fianco_ai"
version = "0.1.0"
edition = "2021"

[dependencies]
ndarray = "0.15"
numpy = "0.20"
pyo3 = "0.20"
rand = "0.8"
