[package]
name = "psf"
version = "0.1.0"
edition = "2021"
publish = false

[dependencies]
anyhow = "1"
nom = "7"
pest = "2"
pest_derive = "2"
