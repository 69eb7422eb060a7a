[package]
name = "survey_geometry"
version = "0.1.0"
edition = "2021"
publish = false

[dependencies]
anyhow = "*"
contrast = "*"
hex = "*"
lazy_static = "*"
oxipng = "*"
regex = "*"
tiny-skia = "*"
zip = "*"
