[package]
name = "webp_converter"
version = "0.1.0"
edition = "2021"
publish = false

[dependencies]
anyhow = "*"
clap = { version = "*", features = ["derive"] }
image = "*"
thiserror = "*"
walkdir = "*"
webp = { version = "*", default-features = false }
