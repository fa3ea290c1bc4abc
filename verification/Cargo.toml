[package]
name = "p2p_liveness"
version = "0.1.0"
edition = "2021"
publish = false

[dependencies]
ring = "*"
generic-channel = "*"
