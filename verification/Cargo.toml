[package]
name = "queue_sim"
version = "0.1.0"
edition = "2021"
publish = false

[dependencies]
eframe = { version = "0.29", default-features = false, features = ["glow", "x11", "default_fonts"] }
egui_extras = { version = "0.29", default-features = false }
egui_plot = "0.29"
egui_dock = "0.14"
