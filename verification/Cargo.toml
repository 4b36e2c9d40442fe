[package]
name = "markdown_render"
version = "0.1.0"
edition = "2021"
publish = false

[dependencies]
pulldown-cmark = "0.8"
gh-emoji = "1"
tera = { version = "1", default-features = false }
walkdir = "2"
