[package]
name = "voxel_sand"
version = "0.1.0"
edition = "2021"
publish = false

[dependencies]
rand = "0.8"
egui = "0.29"
eframe = { version = "0.29", default-features = false, features = ["glow", "default_fonts", "x11"] }
egui_commonmark = { version = "0.18", default-features = false, features = ["pulldown_cmark"] }
nalgebra = "0.33"
bytemuck = "1"
log = "0.4"
wasm-bindgen-futures = "0.4"
web-sys = "0.3"
