[package]
name = "renderer"
version = "0.1.0"
edition = "2021"
publish = false

[dependencies]
ahash = "0.8"
anyhow = "1"
maths = "1"
png = "0.17"
tobj = "4"
rayon = "1"
winit = "0.28"
glow = "0.12"
glutin = "0.30"
glutin-winit = "0.3"
raw-window-handle = "0.5"
egui = "0.23"
egui_glow = "0.23"
