[package]
name = "polynomial_optics"
version = "0.1.0"
edition = "2021"
publish = false

[dependencies]
itertools = "0.10"
tiny-skia = "0.6"
cgmath = "0.18"
serde = { version = "1", features = ["derive"] }
ron = "0.7"
csv = "1"
fastrand = "1"
rayon = "1"
num = "0.4"
rand = "0.8"
