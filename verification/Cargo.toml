[package]
name = "normalizador-nq4"
version = "0.1.0"
edition = "2021"
publish = false

[dependencies]
id3 = "1"
image = { version = "0.25", default-features = false, features = ["jpeg", "png"] }
walkdir = "2"
thiserror = "2"
eframe = { version = "0.32", default-features = false, features = ["default_fonts", "glow", "x11"] }
rfd = "0.15"
