[package]
name = "milston"
version = "0.1.0"
edition = "2021"
publish = false

[dependencies]
chrono = "*"
directories = "*"
reqwest = { version = "*", default-features = false }
