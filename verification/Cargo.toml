[package]
name = "mandelbrust"
version = "0.1.0"
edition = "2021"
publish = false

[dependencies]
colorgrad = "0.6"
image = { version = "0.24", default-features = false, features = ["png"] }
minifb = "0.27"
rayon = "1"
