[package]
name = "illustrator"
version = "0.1.0"
edition = "2021"
publish = false

[dependencies]
ab_glyph = "*"
cosmic-text = "*"
epub = "*"
etagere = "*"
fixed = "*"
html5ever = "*"
image = { version = "*", default-features = false }
integer-sqrt = "*"
mime = "*"
quick-xml = { version = "*", features = ["serialize"] }
rustybuzz = "*"
serde = { version = "*", features = ["derive"] }
taffy = "*"
ttf-parser = "*"
zip = "*"
