[package]
name = "mp4scan"
version = "0.1.0"
edition = "2021"
publish = false

[dependencies]
byteorder = "*"
