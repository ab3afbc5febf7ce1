[package]
name = "postparse"
version = "0.1.0"
edition = "2021"
publish = false

[dependencies]
box_drawing = "*"
highlight-pulldown = "*"
maud = "*"
pulldown-cmark = "0.9"
zip = "*"
zip-extensions = "*"
