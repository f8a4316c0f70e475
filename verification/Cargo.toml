[package]
name = "georaster"
version = "0.1.0"
edition = "2021"
publish = false

[dependencies]
tiff = "0.9"
thiserror = "2"
image = { version = "0.25", default-features = false, features = ["png", "jpeg"] }
pmtiles = { version = "*", default-features = false, features = ["mmap-async-tokio"] }
tile-grid = "0.6"
