[package]
name = "poseidon2"
version = "0.1.0"
edition = "2021"
publish = false

[dependencies]
p3-field = "0.1.0"
p3-symmetric = "0.1.0"
rand = "0.8"
