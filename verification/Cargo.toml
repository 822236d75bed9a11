[package]
name = "cpubind"
version = "0.1.0"
edition = "2021"
publish = false

[dependencies]
aya = "0.13"
libc = "0.2"
