[package]
name = "epicycles"
version = "0.1.0"
edition = "2021"
publish = false

[dependencies]
clap = "2"
lyon_path = "0.17"
lyon_svg = "0.17"
rustfft = "6"
