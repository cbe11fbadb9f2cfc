[package]
name = "d4_harvest"
version = "0.1.0"
edition = "2021"
publish = false

[dependencies]
serde = { version = "1", features = ["derive"] }
serde_json = "1"
itertools = "0.10"
egui = "0.21"
eframe = { version = "0.21", default-features = false, features = ["glow", "default_fonts"] }
egui_dock = "0.4"
rfd = "0.11"
