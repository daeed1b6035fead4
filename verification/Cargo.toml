[package]
name = "ropgadget-rs"
version = "0.4.0"
edition = "2021"
publish = false

[dependencies]
capstone = "*"
goblin = "*"
clap = { version = "4", features = ["derive"] }
colored = "*"
log = "0.4"
