[package]
name = "sophon"
version = "0.1.0"
edition = "2021"
publish = false

[dependencies]
fdt = "0.1"
spin = "0.9"
