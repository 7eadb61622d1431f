[package]
name = "raytracer"
version = "0.1.0"
edition = "2021"
publish = false

[dependencies]
num_cpus = "1"
rand = "0.8"
pbr = "1"
structopt = "0.3"
image = { version = "0.24", default-features = false, features = ["bmp"] }
