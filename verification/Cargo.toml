[package]
name = "eas_detect"
version = "0.1.0"
edition = "2021"
publish = false

[dependencies]
rustfft = "6"
wav = "1"
plotters = { version = "0.3", default-features = false, features = ["bitmap_backend", "bitmap_encoder", "line_series", "ttf"] }
crossbeam = "0.8"
gstreamer = "0.16"
