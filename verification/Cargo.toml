[package]
name = "nss_lying"
version = "0.1.0"
edition = "2021"
publish = false

[dependencies]
anyhow = "*"
lazy_static = "*"
libc = "*"
libnss = "*"
