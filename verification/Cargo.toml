[package]
name = "matrix_dot"
version = "0.1.0"
edition = "2021"
publish = false

[dependencies]
ndarray = "*"
rayon = "*"
simple_parallel = "*"

[dev-dependencies]
rand = "*"
