[package]
name = "sevens"
version = "0.1.0"
edition = "2021"
publish = false

[dependencies]
rand = "0.8"
clap = { version = "4", features = ["derive"] }
colored = "2"
terminal_size = "0.3"
num-format = "0.4"
