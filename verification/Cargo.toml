[package]
name = "chess_core"
version = "0.1.0"
edition = "2021"
publish = false

[dependencies]
rand = "0.8"
sdl2 = "0.35"
gl = "0.14"
image = { version = "0.24", default-features = false, features = ["png"] }
