[package]
name = "fiberslice"
version = "0.1.0"
edition = "2021"
publish = false

[dependencies]
glam = "*"
serde = { version = "*", features = ["derive"] }
serde_yaml = "*"
strum = "*"
strum_macros = "*"
parking_lot = "*"
log = "*"
