[package]
name = "moodly"
version = "0.1.0"
edition = "2021"
publish = false

[dependencies]
chrono = "*"
clap = { version = "*", features = ["derive"] }
csv = "*"
ctrlc = "*"
dirs = "*"
