[package]
name = "gpuflux"
version = "0.1.0"
edition = "2021"
publish = false

[dependencies]
redb = "2.6"
libc = "0.2"
