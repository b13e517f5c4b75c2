[package]
name = "rusty_bike"
version = "0.1.0"
edition = "2021"
publish = false

[dependencies]
ndarray = "*"
ndarray-npy = "*"
num-traits = "*"
