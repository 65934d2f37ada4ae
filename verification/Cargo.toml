[package]
name = "substrate_codec"
version = "0.1.0"
edition = "2021"
publish = false

[dependencies]
blake2 = "0.10"
bs58 = "0.5"
twox-hash = "1"

[dev-dependencies]
hex = "0.4"
parity-scale-codec = "3"
