[package]
name = "connect_four"
version = "0.1.0"
edition = "2021"
publish = false

[dependencies]
parity-scale-codec = { version = "3", features = ["derive"] }
scale-info = { version = "2", features = ["derive"] }
frame-support = "*"
frame-system = "*"
log = "0.4"
sp-std = "*"
