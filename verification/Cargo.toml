[package]
name = "xurdf"
version = "0.1.0"
edition = "2021"
publish = false

[dependencies]
anyhow = "1"
evalexpr = "8"
nalgebra = "0.31"
pyo3 = { version = "0.17", features = ["extension-module"] }
roxmltree = "0.14"
xmltree = "0.10"

[dev-dependencies]
regex = "1"
