[package]
name = "adbx"
version = "0.1.0"
edition = "2021"
publish = false

[dependencies]
egui = "=0.26.2"
egui_demo_lib = { version = "=0.26.2", default-features = false }
