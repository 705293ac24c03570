[package]
name = "tifflin"
version = "0.1.0"
edition = "2021"
publish = false

[dependencies]
minifb = { version = "0.19", default-features = false, features = ["x11"] }
