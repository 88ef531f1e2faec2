[package]
name = "taskmaster_rs"
version = "0.1.0"
edition = "2021"
publish = false

[dependencies]
chrono = "0.4"
colorsys = "0.6"
convert_case = "0.6"
eframe = { version = "0.22", default-features = false, features = ["glow", "default_fonts"] }
egui = "0.22"
egui_extras = { version = "0.22", features = ["datepicker"] }
egui_file = "0.10"
ical = "0.8"
uuid = { version = "1", features = ["v4"] }
