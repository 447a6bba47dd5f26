[package]
name = "robinson"
version = "0.1.0"
edition = "2021"
publish = false

[dependencies]
getopts = "0.2"
image = { version = "0.24", default-features = false, features = ["png"] }
