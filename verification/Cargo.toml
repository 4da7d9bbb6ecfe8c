[package]
name = "ratex"
version = "0.1.0"
edition = "2021"
publish = false

[dependencies]
ab_glyph = "*"
ttf-parser = "*"
png = "*"
base64 = "*"
fontdb = "*"
system-fonts = "*"
thiserror = "*"
tiny-skia = "*"
cairo-rs = { version = "*", default-features = false }
