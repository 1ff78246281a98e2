[package]
name = "pallet_board"
version = "0.1.0"
edition = "2021"
publish = false

[dependencies]
blake2b_simd = "*"
