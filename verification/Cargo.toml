[package]
name = "ply_engine"
version = "0.1.0"
edition = "2021"
publish = false

[dependencies]
rustc-hash = "*"
macroquad = "*"
kurbo = "*"
lyon = "*"
tinyvg = "*"
