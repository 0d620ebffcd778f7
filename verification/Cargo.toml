[package]
name = "spectral_colors"
version = "0.1.0"
edition = "2021"
publish = false

[dependencies]
rand = "0.8"
rgb = "0.8"
skia-safe = "*"
voronator = "*"
