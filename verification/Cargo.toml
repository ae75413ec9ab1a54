[package]
name = "engine"
version = "0.1.0"
edition = "2021"
publish = false

[dependencies]
fontdue = "0.7"
image = "0.24"
pixels = "0.12"
winit = "0.28"
winit_input_helper = "0.14"
