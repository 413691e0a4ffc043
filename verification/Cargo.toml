[package]
name = "fractal_explorer"
version = "0.1.0"
edition = "2021"
publish = false

[dependencies]
macroquad = "=0.4.16"
egui = "=0.31.1"
egui-macroquad = "=0.17.3"
image = { version = "=0.25.10", default-features = false, features = ["jpeg"] }
num = "=0.4.3"
serde = { version = "=1.0.229", features = ["derive"] }
serde_json = "=1.0.154"
