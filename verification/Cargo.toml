[package]
name = "stark_commit"
version = "0.1.0"
edition = "2021"
publish = false

[dependencies]
blake3 = "1.8"
rayon = "1"
