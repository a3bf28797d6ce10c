[package]
name = "cartoon_pipeline"
version = "0.1.0"
edition = "2021"

[dependencies]
image = { version = "*", default-features = false, features = ["png", "jpeg"] }
