[package]
name = "pagelayout"
version = "0.1.0"
edition = "2021"
publish = false

[dependencies]
hyphenation = { version = "*", features = ["embed_all"] }
image = "*"

[dev-dependencies]
textwrap = "0.13"
