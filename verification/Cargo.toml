[package]
name = "wackypixels"
version = "0.1.0"
edition = "2021"
publish = false

[dependencies]
clap = { version = "4", features = ["derive"] }
flate2 = "1"
hound = "3"
image = { version = "0.25", default-features = false, features = ["png"] }
lopdf = "*"
xz2 = "0.1"
