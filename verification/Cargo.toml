[package]
name = "stylize"
version = "0.1.0"
edition = "2021"
publish = false

[dependencies]
anyhow = "1"
bytemuck = "1"
clap = { version = "4", features = ["derive"] }
image = "0.24"
pollster = "0.3"
rand = "0.8"
wgpu = { version = "0.19", default-features = false, features = ["wgsl"] }
