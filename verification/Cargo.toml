[package]
name = "cv_rusty"
version = "0.1.0"
edition = "2021"
publish = false

[dependencies]
jpeg-decoder = "*"
jpeg-encoder = "*"
libm = "*"
minifb = "*"
png = "*"
rayon = "*"
