[package]
name = "insight_map_loader"
version = "0.1.0"
edition = "2021"
publish = false

[dependencies]
serde = { version = "1", features = ["derive"] }
serde_json = { version = "1", features = ["preserve_order"] }
eframe = { version = "0.36", default-features = false, features = ["default_fonts", "glow", "x11"] }
