[package]
name = "parametric_constraints"
version = "0.1.0"
edition = "2021"
publish = false

[dependencies]
acadrust = "0.6.8"
glam = "*"
inventory = "*"
rustc-hash = "*"
