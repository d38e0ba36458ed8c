[package]
name = "tilegame"
version = "0.1.0"
edition = "2021"
publish = false

[dependencies]
rand = "=0.4.6"
nalgebra = "=0.35.0"
sdl2 = { version = "=0.38.0", features = ["image", "unsafe_textures"] }
