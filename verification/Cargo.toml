[package]
name = "t2fanrd"
version = "0.1.0"
edition = "2021"
publish = false

[dependencies]
glob = "0.3"
libc = "0.2"
nonempty = "*"
nvml-wrapper = "*"
rust-ini = "*"
signal-hook = "0.3"
