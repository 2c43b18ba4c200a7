[package]
name = "synthfs"
version = "0.1.0"
edition = "2021"
publish = false

[dependencies]
fuser = "*"
libc = "*"
lazy_static = "*"
