[package]
name = "macroquad"
version = "0.1.0"
edition = "2021"
publish = false

[dependencies]
image = { version = "0.24", default-features = false, features = ["png", "tga"] }
miniquad = "0.3"
glam = "0.21"
