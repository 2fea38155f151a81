[package]
name = "lol_inline_assets"
version = "0.1.0"
edition = "2021"
publish = false

[dependencies]
anyhow = "1"
base64 = "*"
infer = "*"
lol_html = "*"
mime_guess = "2"
regex = "1"
