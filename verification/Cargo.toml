[package]
name = "toolchain_find"
version = "0.1.0"
edition = "2021"
publish = false

[dependencies]
chrono = "0.4"
dirs = "*"
reqwest = { version = "0.12", features = ["blocking"] }
structopt = "0.3"
termcolor = "1"
