[package]
name = "vision_tasks"
version = "0.1.0"
edition = "2021"
publish = false

[dependencies]
bytemuck = "1"
image = { version = "*", default-features = false, features = ["png", "jpeg"] }
log = "0.4"
rustfft = "6"
serde = { version = "1", features = ["derive"] }
serde_json = "1"
thiserror = "*"
web-time = "1"
wgpu = "*"
