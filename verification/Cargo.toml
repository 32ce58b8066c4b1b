[package]
name = "sts_rust"
version = "0.1.0"
edition = "2021"
publish = false

[dependencies]
anyhow = "1"
encoding_rs = "0.8"
csv = "1"
regex = "1"
serde = { version = "1", features = ["derive"] }
serde_json = "1"
dirs = "5"
eframe = { version = "0.29", default-features = false, features = ["glow", "default_fonts"] }
egui = "0.29"
egui_extras = { version = "0.29", default-features = false, features = ["image"] }
image = { version = "0.25", default-features = false, features = ["ico", "png"] }
rfd = "0.15"
