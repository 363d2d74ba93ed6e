[package]
name = "hawk_scheme"
version = "0.1.0"
edition = "2021"
publish = false

[dependencies]
rust-crypto = "=0.2.36"
rustc-serialize = "=0.3.25"
url = "=2.5.8"
