[package]
name = "pagetext"
version = "0.1.0"
edition = "2021"
publish = false

[dependencies]
adobe-cmap-parser = "*"
pdf = "*"
anyhow = "*"
flate2 = "*"
image = { version = "*", default-features = false, features = ["png"] }
