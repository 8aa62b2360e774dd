[package]
name = "keypad_view"
version = "0.1.0"
edition = "2021"
publish = false

[dependencies]
embedded-graphics = "=0.6.0-alpha.2"
failure = "=0.1.8"
rppal = { version = "=0.11.3", features = ["hal"] }
ssd1306 = "=0.3.0-alpha.1"
