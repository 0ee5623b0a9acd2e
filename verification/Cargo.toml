[package]
name = "plc_decoder"
version = "0.1.0"
edition = "2021"
publish = false

[dependencies]
hex = "=0.4.3"
encoding_rs = "=0.8.42"
clipboard = "=0.5.0"
eframe = { version = "=0.29.1", default-features = false, features = ["glow", "default_fonts", "x11"] }

[dev-dependencies]
regex = "=1.13.1"
