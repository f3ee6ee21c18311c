[package]
name = "heat2d"
version = "0.1.0"
edition = "2021"
publish = false

[dependencies]
fps_counter = "*"
image = { version = "*", default-features = false }
piston_window = "*"
