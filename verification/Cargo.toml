[package]
name = "swatchgen"
version = "0.1.0"
edition = "2021"
publish = false

[dependencies]
usvg = "*"
resvg = "*"
tiny-skia = "*"
rocket = "*"
