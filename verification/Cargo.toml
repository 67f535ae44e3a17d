[package]
name = "image_dedup"
version = "0.1.0"
edition = "2021"
publish = false

[dependencies]
image = "0.23"
img_hash = "3.2"
walkdir = "2"
rayon = "1"
