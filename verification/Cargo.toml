[package]
name = "vetro"
version = "0.1.0"
edition = "2021"
publish = false

[dependencies]

[dev-dependencies]
smoltcp = "0.12"
