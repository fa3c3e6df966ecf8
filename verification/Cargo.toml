[package]
name = "tracer"
version = "0.1.0"
edition = "2021"
publish = false

[dependencies]
rand = { version = "0.8", features = ["small_rng"] }
rand_distr = "0.4"
image = { version = "0.23", default-features = false, features = ["png"] }
nalgebra = "0.29"
arg = "*"
