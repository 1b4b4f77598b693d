[package]
name = "pixel_sorter"
version = "0.1.0"
edition = "2021"
publish = false

[dependencies]
image = "*"
kamadak-exif = "*"
