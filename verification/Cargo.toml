[package]
name = "rabi"
version = "0.1.0"
edition = "2021"
publish = false

[dependencies]
unicode-width = "0.1"
winapi = { version = "0.3", features = ["wincon"] }
winapi-util = "0.1"
