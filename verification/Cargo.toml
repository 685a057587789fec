[package]
name = "byard_core"
version = "0.1.0"
edition = "2021"
publish = false

[dependencies]
bytemuck = { version = "=1.25.2", features = ["derive", "extern_crate_alloc"] }
rustc-hash = "=2.1.1"
wgpu = "=29.0.4"
glyphon = "=0.11.0"
image = { version = "=0.25.10", default-features = false, features = ["png", "jpeg"] }
tokio = { version = "=1.54.1", features = ["rt", "rt-multi-thread", "sync"] }
crossbeam-channel = "=0.5.17"
pollster = "=1.0.1"
