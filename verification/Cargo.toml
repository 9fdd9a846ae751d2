[package]
name = "pulsar"
version = "0.1.0"
edition = "2021"
publish = false

[dependencies]
fides = "=2.3.0"
rand = "0.8"
