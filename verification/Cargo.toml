[package]
name = "karaoke-booth"
version = "0.1.0"
edition = "2021"
publish = false

[dependencies]
eframe = { version = "0.31", default-features = false, features = ["default_fonts", "glow", "x11"] }
rfd = { version = "0.15", default-features = false, features = ["gtk3"] }
rtrb = "0.3"
serde = { version = "1", features = ["derive"] }
serde_json = "1"
symphonia = "0.5"
