[package]
name = "renderer"
version = "0.1.0"
edition = "2021"
publish = false

[dependencies]
image = { version = "*", default-features = false, features = ["png"] }
wgpu = "*"
winit = "0.30"
pollster = "*"
bytemuck = { version = "*", features = ["derive"] }
rand = "*"
ga_generator = "*"
