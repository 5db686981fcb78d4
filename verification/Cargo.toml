[package]
name = "dssim-core"
version = "3.4.0"
edition = "2021"
publish = false

[dependencies]
imgref = "1"
rayon = "1"
rgb = "0.8"
