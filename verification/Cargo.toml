[package]
name = "genx"
version = "0.4.0"
edition = "2021"
publish = false

[dependencies]
itertools = "0.10"
rand = "0.8"
