[package]
name = "river_swww"
version = "0.1.0"
edition = "2021"
publish = false

[dependencies]
async-channel = "*"
async-process = "*"
dirs-next = "*"
futures-lite = "*"
serde = { version = "*", features = ["derive"] }
serde_json = "*"
smol = "*"
smol-macros = "*"
