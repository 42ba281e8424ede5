[package]
name = "wasm_views"
version = "0.1.0"
edition = "2021"
publish = false

[dependencies]
anyhow = "=1.0.104"
pyo3 = "=0.30.1"
wasmer = { version = "=6.1.0", default-features = false, features = ["compiler", "sys"] }
wasmprinter = "=0.262.0"
wat = { version = "=1.262.0", default-features = false }
