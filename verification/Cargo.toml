[package]
name = "fyrox-graphics-wgpu"
version = "0.1.0"
edition = "2021"
publish = false

[dependencies]
bytemuck = "1"
wgpu = { version = "*", default-features = false, features = ["std", "parking_lot", "wgsl", "vulkan"] }
