[package]
name = "raytracer"
version = "0.1.0"
edition = "2021"
publish = false

[dependencies]
bytemuck = "1"
cgmath = "0.18"
env_logger = { version = "0.11", default-features = false }
glam = "0.27"
image = { version = "0.25", default-features = false, features = ["png"] }
pollster = "0.3"
rand = "0.8"
rand_pcg = "0.3"
