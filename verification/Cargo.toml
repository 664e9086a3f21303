[package]
name = "geohash_fast"
version = "0.1.0"
edition = "2021"
publish = false

[dependencies]
num_cpus = "1"
pyo3 = { version = "0.18", features = ["extension-module", "abi3-py37"] }
rayon = "1"

[dev-dependencies]
geohash = "0.13"
