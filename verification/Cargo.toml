[package]
name = "swarf"
version = "0.1.0"
edition = "2021"
publish = false

[dependencies]
bytemuck = { version = "=1.25.2", features = ["derive", "extern_crate_alloc"] }
png = "=0.18.1"
pollster = "=1.0.1"
wgpu = "=30.0.1"
winit = "=0.30.13"
