[package]
name = "anchornet"
version = "0.8.0"
edition = "2021"
publish = false

[dependencies]
soroban-sdk = "22"
