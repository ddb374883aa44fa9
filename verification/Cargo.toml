[package]
name = "indus"
version = "0.1.0"
edition = "2021"
publish = false

[dependencies]
rust-crypto = "0.2"
rustc-serialize = "0.3"
postgres = "0.10"
log = "0.3"
maud = "*"
