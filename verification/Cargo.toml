[package]
name = "keyboard_listener"
version = "0.1.0"
edition = "2021"
publish = false

[dependencies]
evdev = "0.13"
serde = { version = "1", features = ["derive"] }
thiserror = "2"
