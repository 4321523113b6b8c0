[package]
name = "age"
version = "0.1.0"
edition = "2021"
publish = false

[dependencies]
bytemuck = "1"
image = "0.24"
fontdue = "0.8"
glam = "0.25"
winit = "0.29"
