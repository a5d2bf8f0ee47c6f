[package]
name = "storage_keys"
version = "0.1.0"
edition = "2021"
publish = false

[dependencies]
frame-support = "=49.0.0"
hex = "=0.4.3"
libc = "=0.2.191"
parity-scale-codec = "=3.7.5"
