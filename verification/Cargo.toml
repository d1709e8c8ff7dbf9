[package]
name = "chess"
version = "0.1.0"
edition = "2021"
publish = false

[dependencies]
rand_chacha = "0.3"
crossbeam-channel = "0.5"
stanza = "0.5"
voxell_rng = "*"
eframe = { version = "0.29", default-features = false, features = ["glow", "default_fonts"] }
egui_extras = { version = "0.29", default-features = false, features = ["image"] }
