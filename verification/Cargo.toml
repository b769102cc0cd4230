[package]
name = "ditherer"
version = "0.1.0"
edition = "2021"
publish = false

[dependencies]
image = "*"
argh = "*"
