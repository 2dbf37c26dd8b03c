[package]
name = "vcs"
version = "0.1.0"
edition = "2021"
publish = false

[dependencies]
sha1 = "*"
chrono = "*"
clap = { version = "*", features = ["derive"] }
serde = { version = "*", features = ["derive"] }
serde_json = "*"
walkdir = "*"
zip = "*"
