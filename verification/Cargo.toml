[package]
name = "imagetext"
version = "0.1.0"
edition = "2021"
publish = false

[dependencies]
emojis = "*"
unicode-segmentation = "*"
rusttype = "*"
tiny-skia = "*"
image = { version = "*", default-features = false, features = ["png"] }
reqwest = { version = "*", default-features = false, features = ["blocking"] }
