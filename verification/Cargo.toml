[package]
name = "costume_save"
version = "0.1.0"
edition = "2021"
publish = false

[dependencies]
chrono = { version = "0.4", default-features = false, features = ["std"] }
eframe = { version = "0.23", default-features = false, features = ["glow", "default_fonts", "x11"] }
egui_extras = { version = "0.23", default-features = false, features = ["file", "image"] }
rfd = { version = "0.12", default-features = false, features = ["xdg-portal"] }
