[package]
name = "check_key"
version = "0.1.0"
edition = "2021"
publish = false

[dependencies]
clap = { version = "*", features = ["derive"] }
ml-progress = "*"
winapi = "*"
windows-dll = "*"
