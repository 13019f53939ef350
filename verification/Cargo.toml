[package]
name = "batch_exif"
version = "0.1.0"
edition = "2021"
publish = false

[dependencies]
bytes = "=1.12.1"
img-parts = "=0.4.1"
little_exif = "=0.6.23"
imagesize = "=0.14.0"
iced = { version = "=0.14.0", default-features = false, features = ["tiny-skia", "image", "x11", "thread-pool"] }
