[package]
name = "nvim_capsules"
version = "0.1.0"
edition = "2021"
publish = false

[dependencies]
zip = { version = "*", default-features = false, features = ["deflate"] }
chrono = "*"
clap = { version = "*", features = ["derive"] }
dialoguer = "*"
dirs = "*"
indicatif = "*"
walkdir = "*"
