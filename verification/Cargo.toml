[package]
name = "game_of_life"
version = "0.1.0"
edition = "2021"
publish = false

[dependencies]
rand = "0.9"
vulkano = "0.35"
vulkano-shaders = "0.35"
winit = "0.30"
