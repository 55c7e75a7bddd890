[package]
name = "music_app"
version = "0.1.0"
edition = "2021"
publish = false

[dependencies]
rand = "0.9"
serde = { version = "1", features = ["derive"] }
lofty = "0.22"
walkdir = "2"
image = { version = "0.25", default-features = false, features = ["jpeg"] }
