[package]
name = "mnist"
version = "0.1.0"
edition = "2021"
publish = false

[dependencies]
plotters = { version = "*", default-features = false, features = ["bitmap_backend", "bitmap_encoder"] }
