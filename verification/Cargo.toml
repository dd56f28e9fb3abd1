[package]
name = "nfa"
version = "0.1.0"
edition = "2021"
publish = false

[dependencies]
sled = "0.34"
rand = "0.8"
clap = { version = "4", features = ["derive"] }
dirs = "5"

[dev-dependencies]
tempfile = "3"
