[package]
name = "prometheus"
version = "0.1.0"
edition = "2021"
publish = false

[dependencies]
fnv = "1"
libc = "0.2"
url = "2"
