[package]
name = "pedal_steel"
version = "0.1.0"
edition = "2021"
publish = false

[dependencies]
clap = { version = "*", features = ["derive"] }
rust-music-theory = "*"
