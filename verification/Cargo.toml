[package]
name = "vectorscope"
version = "0.1.0"
edition = "2021"
publish = false

[dependencies]
anyhow = "=1.0.104"
cpal = { version = "=0.18.2", features = ["jack"] }
line_drawing = "=1.0.1"
pixels = "=0.17.2"
winit = "=0.30.13"
