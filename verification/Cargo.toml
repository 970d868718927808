[package]
name = "bevy_svg"
version = "0.1.0"
edition = "2021"
publish = false

[dependencies]
bevy = { version = "0.8", default-features = false, features = ["bevy_asset", "render"] }
lyon_tessellation = "1.0"
