[package]
name = "minigit"
version = "0.1.0"
edition = "2021"
publish = false

[dependencies]
bytes = "1"
deflate = "1"
rand = "0.8"
sha1 = "0.6"
time = "0.2"
walkdir = "2"

[dev-dependencies]
inflate = "*"
