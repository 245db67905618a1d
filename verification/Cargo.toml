[package]
name = "univac"
version = "0.1.0"
edition = "2021"
publish = false

[dependencies]
ux = "0.1"
clap = { version = "4", features = ["derive"] }
console = "0.15"
indicatif = "0.17"
serialport = { version = "4", default-features = false }
