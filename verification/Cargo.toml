[package]
name = "aec_render"
version = "0.1.0"
edition = "2021"
publish = false

[dependencies]
bytemuck = { version = "=1.25.2", features = ["derive"] }
chrono = { version = "=0.4.45", default-features = false, features = ["clock", "std", "serde"] }
fastrand = "=2.5.0"
glam = { version = "=0.27.0", features = ["serde"] }
image = { version = "=0.25.10", default-features = false, features = ["png", "jpeg", "hdr", "exr"] }
naga = { version = "=0.20.0", features = ["wgsl-in"] }
pollster = "=0.3.0"
rayon = "=1.12.0"
rusqlite = { version = "=0.31.0", features = ["bundled"] }
serde = { version = "=1.0.229", features = ["derive"] }
serde_json = "=1.0.154"
thiserror = "=1.0.69"
uuid = { version = "=1.29.0", features = ["v4"] }
wgpu = "=0.20.1"
