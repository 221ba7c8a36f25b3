[package]
name = "winreg-io-rs"
version = "0.1.0"
edition = "2021"
publish = false

[dependencies]
regashii = "*"
winreg = { version = "*", features = ["transactions"] }
