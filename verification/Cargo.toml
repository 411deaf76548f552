[package]
name = "shapad"
version = "0.1.0"
edition = "2021"
publish = false

[dependencies]
bitvec = "=0.20.4"
pretty_env_logger = "0.4"
