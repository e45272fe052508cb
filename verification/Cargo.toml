[package]
name = "funktrack"
version = "0.1.0"
edition = "2021"
publish = false

[dependencies]
clap = { version = "*", features = ["derive"] }
noise = "*"
realfft = "*"
ron = "*"
serde = { version = "*", features = ["derive"] }
serde_json = "*"
symphonia = { version = "*", features = ["mp3"] }
