[package]
name = "mandelbrot"
version = "0.1.0"
edition = "2021"
publish = false

[dependencies]
rug = "1"
image = { version = "0.25", default-features = false, features = ["png"] }
hsl = "0.1"
rayon = "1"
indicatif = "0.17"
clap = { version = "4", features = ["derive"] }
