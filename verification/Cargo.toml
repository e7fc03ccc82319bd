[package]
name = "knn"
version = "0.1.0"
edition = "2021"
publish = false

[dependencies]
itertools = "0.12"
kdtree = "*"
ndarray = "0.15"
polars = { version = "0.39", default-features = false, features = ["ndarray", "dtype-struct"] }
pyo3 = { version = "0.21", features = ["extension-module", "abi3-py38"] }
pyo3-polars = { version = "0.13", features = ["derive"] }
serde = { version = "1", features = ["derive"] }
