[package]
name = "rustafarian_network"
version = "0.1.0"
edition = "2021"
publish = false

[dependencies]
crossbeam = "0.8"
crossbeam-channel = "0.5"
rand = "0.8"
toml = "0.8"
