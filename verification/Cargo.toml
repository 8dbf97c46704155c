[package]
name = "upchuk"
version = "0.1.0"
edition = "2021"
publish = false

[dependencies]
chrono = "0.4"
clap = { version = "4", features = ["derive"] }
dirs-next = "2"
reqwest = { version = "0.12", default-features = false, features = ["blocking"] }
