[package]
name = "rockies"
version = "0.1.0"
edition = "2021"
publish = false

[dependencies]
noise = "*"
ansi_term = "*"
ansi-control-codes = "*"
libc = "*"
