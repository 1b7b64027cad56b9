[package]
name = "computer_graphics_from_scratch_rs"
version = "0.1.0"
edition = "2021"
publish = false

[dependencies]
anyhow = "*"
cgmath = "*"
png = "*"
winit = "*"
