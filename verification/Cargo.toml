[package]
name = "vban_emitter"
version = "0.1.0"
edition = "2021"
publish = false

[dependencies]
clap = { version = "4", features = ["derive"] }
ctrlc = "3"
muda = "*"
tray-icon = "*"
winit = "0.29"
