[package]
name = "fractal_tiles"
version = "0.1.0"
edition = "2021"
publish = false

[dependencies]
ggez = { version = "0.9", default-features = false }
image = { version = "0.24", default-features = false }

[dev-dependencies]
palette = { version = "0.6", default-features = false, features = ["std"] }
