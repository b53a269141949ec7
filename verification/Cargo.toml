[package]
name = "vasm"
version = "0.1.0"
edition = "2021"
publish = false

[dependencies]
colored = "*"
image = "*"
indoc = "*"
