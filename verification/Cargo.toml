[package]
name = "simd_playground"
version = "0.1.0"
edition = "2021"
publish = false

[dependencies]
itertools = "=0.15.0"
wide = "=1.7.1"
