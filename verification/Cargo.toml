[package]
name = "plain-cache"
version = "0.1.0"
edition = "2021"
publish = false

[dependencies]
ahash = "0.8"
parking_lot = "0.12"
