[package]
name = "snake"
version = "0.1.0"
edition = "2021"
publish = false

[dependencies]
bevy = { version = "0.7", default-features = false, features = ["bevy_audio", "bevy_winit", "render", "vorbis", "x11"] }
rand = "0.8"
