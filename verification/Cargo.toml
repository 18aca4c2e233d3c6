[package]
name = "grund"
version = "0.1.0"
edition = "2021"
publish = false

[dependencies]
regex = "1"
unicode-normalization = "0.1"
ignore = "0.4"
anyhow = "1"
