[package]
name = "rebop"
version = "0.1.0"
edition = "2021"
publish = false

[dependencies]
pyo3 = { version = "0.22", features = ["extension-module", "abi3-py38"] }
rand = { version = "0.8", features = ["small_rng"] }
rand_distr = "0.4"
