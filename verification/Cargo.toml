[package]
name = "voronoi_mines"
version = "0.1.0"
edition = "2021"
publish = false

[dependencies]
rand = "0.8"
voronator = "*"
sdl2 = { version = "*", features = ["gfx", "ttf"] }
