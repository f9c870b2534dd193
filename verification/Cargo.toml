[package]
name = "girg_generator"
version = "0.1.0"
edition = "2021"
publish = false

[dependencies]
rand = "0.8"
crossbeam-channel = "0.5"

[dev-dependencies]
mur3 = "0.1"
rand_xoshiro = "0.6"
