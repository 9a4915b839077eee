[package]
name = "sorter_logic"
version = "0.1.0"
edition = "2021"
publish = false

[dependencies]
heapless = "0.8"
micromath = "2"
image = { version = "0.24", default-features = false, features = ["png"] }
walkdir = "2"
