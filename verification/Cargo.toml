[package]
name = "cube_fountain"
version = "0.1.0"
edition = "2021"
publish = false

[dependencies]
rand = "0.8"
glm = "0.2"
num-traits = "0.2"
sdl2 = "*"
gl = "0.14"
anyhow = "1"
