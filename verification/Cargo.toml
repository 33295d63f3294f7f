[package]
name = "raytracing"
version = "0.1.0"
edition = "2021"
publish = false

[dependencies]
rand = "0.8"
clap = "4"
eframe = { version = "0.22", default-features = false, features = ["glow", "default_fonts"] }
egui = "0.22"
fast_image_resize = "2"
image = "0.24"
mouse-rs = "0.4"
rayon = "1"
serde = { version = "1", features = ["derive"] }
time = { version = "0.3", features = ["formatting", "parsing"] }
toml = "0.7"
tracing = "0.1"
tracing-error = "0.2"
tracing-subscriber = { version = "0.3", features = ["env-filter", "time"] }
