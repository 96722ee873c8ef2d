[package]
name = "cubic_ext"
version = "0.1.0"
edition = "2021"
publish = false

[dependencies]
winter-utils = "*"
