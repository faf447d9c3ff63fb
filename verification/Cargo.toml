[package]
name = "hex_logo"
version = "0.1.0"
edition = "2021"
publish = false

[dependencies]
domrs = "*"
