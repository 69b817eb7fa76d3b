[package]
name = "imaging"
version = "0.1.0"
edition = "2021"
publish = false

[dependencies]
kurbo = "=0.13.1"
peniko = "=0.6.1"
tiny-skia = { version = "0.11", default-features = false, features = ["std"] }
