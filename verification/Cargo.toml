[package]
name = "aeropdf"
version = "0.1.0"
edition = "2021"
publish = false

[dependencies]
image = { version = "*", default-features = false }
eframe = { version = "*", default-features = false, features = ["default_fonts", "glow", "x11"] }
egui = "*"
arboard = "*"
rfd = { version = "*", default-features = false, features = ["xdg-portal", "tokio"] }
pdfium-render = "*"
