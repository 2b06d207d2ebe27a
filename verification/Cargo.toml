[package]
name = "fallen_leaves_world"
version = "0.1.0"
edition = "2021"
publish = false

[dependencies]
fxhash = "0.2"
rayon = "1"
rand = "0.8"
image = { version = "*", default-features = false, features = ["png"] }
kiss3d = { version = "=0.41.0", default-features = false }
