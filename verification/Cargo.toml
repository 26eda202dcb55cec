[package]
name = "matrix_game"
version = "0.1.0"
edition = "2021"
publish = false

[dependencies]
image = { version = "0.25", default-features = false }
glam = "0.30"
bytemuck = { version = "1", features = ["derive"] }
wgpu = { version = "28", default-features = false, features = ["std", "wgsl"] }
