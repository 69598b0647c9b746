[package]
name = "matrix_printing"
version = "0.1.0"
edition = "2021"
publish = false

[dependencies]
serde_json = "1"
image = { version = "0.25", default-features = false, features = ["png", "jpeg", "gif", "bmp"] }
fontdue = "0.9"
chrono = { version = "0.4", default-features = false, features = ["clock"] }
egui = "0.31"
eframe = { version = "0.31", default-features = false, features = ["glow", "x11", "default_fonts"] }
rfd = { version = "0.15", default-features = false, features = ["xdg-portal", "tokio"] }
