[package]
name = "ascendustry"
version = "0.1.0"
edition = "2021"
publish = false

[dependencies]
bytemuck = { version = "=1.25.2", features = ["derive"] }
cgmath = "=0.18.0"
rayon = "=1.12.0"
serde = { version = "1", features = ["derive"] }
serde_json = "1"
wgpu = "=30.0.1"
