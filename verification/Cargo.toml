[package]
name = "molybdenum"
version = "0.1.0"
edition = "2021"

[dependencies]
regex = "*"
atty = "*"
colored = "*"
ignore = "*"
