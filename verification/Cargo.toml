[package]
name = "hrpg"
version = "0.1.0"
edition = "2021"
publish = false

[dependencies]
convert_case = "=0.6.0"
railroad = "=0.1.1"
clap = { version = "=3.2.25", features = ["derive"] }
