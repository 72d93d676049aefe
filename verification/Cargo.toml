[package]
name = "klondike"
version = "0.1.0"
edition = "2021"
publish = false

[dependencies]
rand = "0.8"
winit = { version = "0.28", default-features = false, features = ["x11"] }
kira = "0.8"
instant = "0.1"
num = "0.4"
bytemuck = { version = "1", features = ["derive"] }
