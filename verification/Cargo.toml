[package]
name = "simtrace"
version = "0.1.0"
edition = "2021"
publish = false

[dependencies]
anyhow = "=1.0.104"
eframe = { version = "=0.33.3", default-features = false, features = ["wgpu", "x11", "default_fonts", "persistence"] }
egui = "=0.33.3"
serde = { version = "=1.0.229", features = ["derive"] }
tracing = "=0.1.44"
