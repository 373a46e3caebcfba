[package]
name = "bloom"
version = "0.1.0"
edition = "2021"
publish = false

[dependencies]
bit-vec = "=0.10.1"

[dev-dependencies]
rand = "=0.8.8"
