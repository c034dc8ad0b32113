[package]
name = "markdown_rendering"
version = "0.1.0"
edition = "2021"
publish = false

[dependencies]
anyhow = "*"
base64 = "0.13"
comrak = "*"
walkdir = "*"
