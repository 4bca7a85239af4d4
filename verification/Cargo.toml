[package]
name = "shiboru"
version = "0.1.0"
edition = "2021"
publish = false

[dependencies]
nvim-oxi = { version = "=0.6.0", features = ["neovim-0-11"] }
tane = "=0.1.0"

[dev-dependencies]
tempfile = "=3.27.0"
