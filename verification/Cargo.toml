[package]
name = "rhwp"
version = "0.1.0"
edition = "2021"
publish = false

[dependencies]
ttf-parser = "=0.25.1"
usvg = "=0.45.1"
svg2pdf = "=0.13.0"
pdf-writer = "=0.12.1"
quick-xml = "=0.42.0"
