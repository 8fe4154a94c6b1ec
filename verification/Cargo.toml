[package]
name = "live2d"
version = "0.1.0"
edition = "2021"
publish = false

[dependencies]
serde = { version = "1", features = ["derive"] }
serde_json = "1"
bytemuck = { version = "1", features = ["derive"] }
image = { version = "*", default-features = false, features = ["png"] }
pollster = "*"
wgpu = "*"
