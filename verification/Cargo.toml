[package]
name = "papyrus_network"
version = "0.1.0"
edition = "2021"
publish = false

[dependencies]
futures = "0.3"
libp2p = { version = "0.52", default-features = false }
prost = "0.12"
starknet_api = "*"
