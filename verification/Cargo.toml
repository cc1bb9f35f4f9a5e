[package]
name = "toon_settings"
version = "1.0.0"
edition = "2021"
publish = false

[dependencies]
regex = "=1.13.1"
serde = { version = "=1.0.229", features = ["derive"] }
dirs = "6"
reqwest = { version = "0.12", features = ["blocking", "json"] }
eframe = { version = "0.31", default-features = false, features = ["default_fonts", "glow", "x11"] }
