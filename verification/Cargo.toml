[package]
name = "tiny_resolver_rs"
version = "0.1.0"
edition = "2021"

[dependencies]
rand = "0.8"
