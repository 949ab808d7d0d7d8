[package]
name = "pyrite"
version = "0.1.0"
edition = "2021"
publish = false

[dependencies]
rand_core = "=0.10.1"
rand_xorshift = "=0.5.0"
image = { version = "=0.25.10", default-features = false, features = ["png"] }
