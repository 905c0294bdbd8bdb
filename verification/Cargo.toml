[package]
name = "pattern"
version = "0.1.0"
edition = "2021"
publish = false

[dependencies]
xkbcommon = "*"
wayland-server = "*"
wayland-protocols = { version = "*", features = ["server"] }
memmap2 = "*"
