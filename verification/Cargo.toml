[package]
name = "sbv2_core"
version = "0.1.0"
edition = "2021"
publish = false

[dependencies]
anyhow = "1"
base64 = "0.22"
ndarray = "0.16"
npyz = "0.8"
pyo3 = "*"
serde_json = "1"
tar = "0.4"
zstd = "0.13"
