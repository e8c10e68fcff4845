[package]
name = "ableton_cli"
version = "0.2.0"
edition = "2021"
publish = false

[dependencies]
anyhow = "1"
clap = { version = "4", features = ["derive"] }
flate2 = "1"
lofty = "*"
roxmltree = "*"
thiserror = "*"
walkdir = "2"
