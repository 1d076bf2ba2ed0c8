[package]
name = "presenterm"
version = "0.1.0"
edition = "2021"
publish = false

[dependencies]
hex = "0.4"
unicode-width = "0.2"
crossterm = "0.28"
serde = { version = "1", features = ["derive"] }
serde_yaml = "0.9"
merge-struct = "0.1"
vte = "0.15"
base64 = "0.22"
tempfile = "3"
fastrand = "2"
