[package]
name = "stark17"
version = "0.1.0"
edition = "2021"

[dependencies]
blake3 = "*"
