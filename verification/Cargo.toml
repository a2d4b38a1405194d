[package]
name = "rawshift"
version = "0.1.0"
edition = "2021"
publish = false

[dependencies]
gamut-icc = "*"
gamut-xmp = "*"
img-parts = "*"
libloading = "*"
