[package]
name = "miniplonk"
version = "0.1.0"
edition = "2021"
publish = false

[dependencies]
bls12_381 = "*"
ff = "*"
group = "*"
blake2b_simd = "*"
rand = "*"
