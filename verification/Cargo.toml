[package]
name = "meta_memcache_socket"
version = "0.1.0"
edition = "2021"
publish = false

[dependencies]
atoi = "2.0.0"
base64 = "0.21"
pyo3 = { version = "0.20", features = ["abi3-py38"] }
