[package]
name = "mel"
version = "0.1.0"
edition = "2021"
publish = false

[dependencies]
apodize = "*"
hertz = "*"
itertools-num = "*"
num = "*"

[dev-dependencies]
approx = "*"
