[package]
name = "ctrlsys_toolbox"
version = "0.1.0"
edition = "2021"
publish = false

[dependencies]
num = "*"
ndarray = "*"
ndarray-linalg = "*"
