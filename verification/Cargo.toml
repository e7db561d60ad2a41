[package]
name = "streamdeck_render"
version = "0.1.0"
edition = "2021"
publish = false

[dependencies]
ab_glyph = "0.2"
base64 = "0.22"
image = { version = "0.25", default-features = false, features = ["png"] }
clap = { version = "4", features = ["derive"] }
anyhow = "1"
thiserror = "*"
