[package]
name = "lattice_collide"
version = "0.1.0"
edition = "2021"
publish = false

[dependencies]
nalgebra = { version = "*", default-features = false, features = ["std"] }
num-traits = "*"
