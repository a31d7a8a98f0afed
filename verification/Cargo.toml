[package]
name = "sxo"
version = "0.1.0"
edition = "2021"
publish = false

[dependencies]
num-bigint = "*"
oak-core = "*"
oak-wolfram = "*"
oak-matlab = "*"
serde_json = "*"
