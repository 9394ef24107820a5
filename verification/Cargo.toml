[package]
name = "zapfast"
version = "0.1.0"
edition = "2021"
publish = false

[dependencies]
serde_json = "1.0.154"
log = "0.4.35"
egui = "0.37.0"
image = { version = "0.25.10", default-features = false, features = ["png", "jpeg"] }
