[package]
name = "freivalds"
version = "0.1.0"
edition = "2021"
publish = false

[dependencies]
ark-ff = "0.4"
ark-relations = "0.4"
ark-r1cs-std = "0.4"
ark-crypto-primitives = { version = "0.4", features = ["sponge", "r1cs"] }
ark-bn254 = { version = "0.4", features = ["curve"] }
