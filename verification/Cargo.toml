[package]
name = "kittest_inspector"
version = "0.1.0"
edition = "2021"
publish = false

[dependencies]
accesskit = { version = "=0.24.1", features = ["enumn", "serde"] }
accesskit_consumer = "=0.37.0"
arboard = { version = "=3.7.0", default-features = false }
eframe = { version = "=0.36.2", default-features = false, features = ["glow", "x11"] }
egui = { version = "=0.36.2", default-features = false, features = ["default_fonts", "serde"] }
egui_inspection = "=0.36.2"
fs4 = "0.13"
image = { version = "=0.25.10", default-features = false, features = ["gif", "png"] }
schemars = "1"
serde = { version = "1", features = ["derive"] }
serde_json = "1"

[dev-dependencies]
egui_demo_lib = { version = "=0.36.2", default-features = false }
egui_extras = { version = "=0.36.2", default-features = false }
