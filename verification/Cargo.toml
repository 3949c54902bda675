[package]
name = "poseidon_hash"
version = "0.1.0"
edition = "2021"
publish = false

[dependencies]
ark-bn254 = "*"
ark-ff = "*"
rand = "*"
lambdaworks-math = "*"
