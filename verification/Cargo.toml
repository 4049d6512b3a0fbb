[package]
name = "poseidon252"
version = "0.1.0"
edition = "2021"
publish = false

[dependencies]
dusk-bls12_381 = "=0.13.0"
dusk-jubjub = "=0.14.2"
dusk-hades = { version = "=0.24.1", features = ["plonk"] }
dusk-plonk = "=0.19.2"
dusk-bytes = "=0.1.7"
derive-hex = "=0.1.2"
rand = "=0.8.8"

[dev-dependencies]
ff = "=0.13.1"
