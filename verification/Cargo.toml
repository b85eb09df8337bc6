[package]
name = "rust_poker"
version = "0.1.0"
edition = "2021"
publish = false

[dependencies]
rand = "0.8"
sdl2 = { version = "0.37", features = ["image", "ttf"] }
