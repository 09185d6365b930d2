[package]
name = "fmcw_radar_cube_demo"
version = "0.1.0"
edition = "2021"
publish = false

[dependencies]
ndarray = "*"
ndrustfft = "*"
rustfft = "*"
eframe = { version = "0.33", default-features = false, features = ["default_fonts", "glow", "x11"] }
egui = "0.33"
egui_plot = "0.34"
env_logger = "*"
