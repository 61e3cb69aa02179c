[package]
name = "dots"
version = "0.1.0"
edition = "2021"
publish = false

[dependencies]
kd-tree = "0.5"
num = "0.4"
rand = "0.7"
