[package]
name = "heightmap"
version = "0.1.0"
edition = "2021"

[dependencies]
cgmath = "0.17"
noise = { version = "0.7", default-features = false }
sdl2 = "0.32"
