[package]
name = "potential_path"
version = "0.1.0"
edition = "2021"
publish = false

[dependencies]
nannou = "*"
nannou_egui = "*"
stl_io = "*"
