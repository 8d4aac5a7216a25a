[package]
name = "pyrotobuf"
version = "0.1.0"
edition = "2021"
publish = false

[dependencies]
prost-reflect = "*"
pyo3 = "0.20"
