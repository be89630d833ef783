[package]
name = "lattice_fluid"
version = "0.1.0"
edition = "2021"
publish = false

[dependencies]
bit-vec = "*"
ndarray = "*"
palette = "0.7"
rand = "0.8"
sdl2 = "*"
