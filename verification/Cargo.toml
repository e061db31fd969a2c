[package]
name = "music_player"
version = "0.1.0"
edition = "2021"
publish = false

[dependencies]
lofty = "0.18"
rfd = { version = "0.15", default-features = false, features = ["xdg-portal", "tokio"] }
rodio = "0.17"
