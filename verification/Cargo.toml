[package]
name = "gossip-membership"
version = "0.1.0"
edition = "2021"
publish = false

[dependencies]
lz4_flex = "0.11"

[dev-dependencies]
rand = "0.8"
