[package]
name = "chess"
version = "0.1.0"
edition = "2021"
publish = false

[dependencies]
eframe = { version = "0.32", default-features = false, features = ["default_fonts", "glow", "persistence", "x11"] }
egui_extras = { version = "0.32", default-features = false, features = ["image"] }
palette = "0.7"
regex = "1"
anyhow = "1"
serde = { version = "1", features = ["derive"] }
