[package]
name = "precompile_chips"
version = "0.1.0"
edition = "2021"
publish = false

[dependencies]
num = "0.4"
p3-air = "*"
p3-field = "*"
p3-matrix = "*"
rand = "0.8"
serde = { version = "1", features = ["derive"] }
sha2 = "0.10"
