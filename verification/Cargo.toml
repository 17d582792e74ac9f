[package]
name = "basic_interp"
version = "0.1.0"
edition = "2021"
publish = false

[dependencies]
nom = "7.1"
anyhow = "1"
clap = { version = "4", features = ["derive"] }
