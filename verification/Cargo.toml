[package]
name = "ayude"
version = "0.1.0"
edition = "2021"
publish = false

[dependencies]
base64 = "0.13"
smallvec = "1"
image = { version = "0.23", default-features = false, features = ["png", "jpeg"] }
gltf = { version = "0.15", default-features = false, features = ["utils"] }
glam = "0.15"
thiserror = "1"
bytemuck = { version = "1", features = ["derive"] }
wgpu = "0.8"
winit = "0.25"
