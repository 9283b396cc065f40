[package]
name = "less2"
version = "0.1.0"
edition = "2021"
publish = false

[dependencies]
grep = "*"
unicode-segmentation = "*"
clap = "*"
termion = "*"
libc = "*"
