[package]
name = "image_mosaic"
version = "0.1.0"
edition = "2021"
publish = false

[dependencies]
anyhow = "1"
clap = { version = "4", features = ["derive"] }
image = { version = "0.25", default-features = false, features = ["png", "jpeg", "bmp"] }
indicatif = "0.17"
rayon = "1"
serde = { version = "1", features = ["derive"] }
toml = "0.8"
