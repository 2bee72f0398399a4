[package]
name = "fractal_core"
version = "0.1.0"
edition = "2021"
publish = false

[dependencies]
colorous = "1"
itertools = "*"
ndarray = "*"
numpy = "*"
pyo3 = "*"
rand = "*"
rayon = "*"
