[package]
name = "colourful_words"
version = "0.1.0"
edition = "2021"
publish = false

[dependencies]
image = "*"
rayon = "*"
rand = "*"
crossterm = "*"
bytes = "*"
reqwest = { version = "*", features = ["blocking"] }
headless_chrome = "*"
dialoguer = "*"
copypasta = "*"
