[package]
name = "pcm_pipeline"
version = "0.1.0"
edition = "2021"
publish = false

[dependencies]
hound = "3.5"
pyo3 = { version = "0.23", features = ["extension-module"] }
