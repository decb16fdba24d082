[package]
name = "virtua_grotesk_figures"
version = "0.1.0"
edition = "2021"
publish = false

[dependencies]
crc32fast = "1"
harfrust = "*"
kurbo = "*"
norad = "*"
serde_json = "1"
ttf-parser = "*"
