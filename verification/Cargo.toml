[package]
name = "wgpucraft"
version = "0.1.0"
edition = "2021"
publish = false

[dependencies]
rayon = "=1.12.0"
cgmath = "=0.18.0"
noise = { version = "=0.9.0", default-features = false }
wgpu = { version = "=0.19.4", default-features = false, features = ["wgsl"] }
bytemuck = { version = "=1.25.2", features = ["derive"] }
tokio = { version = "=1.54.1", features = ["rt"] }
env_logger = { version = "=0.10.2", default-features = false }
instant = "=0.1.13"
anyhow = "=1.0.104"
