[package]
name = "c2mlir"
version = "0.1.0"
edition = "2021"
publish = false

[dependencies]
ecow = "*"
clap = { version = "*", features = ["derive"] }
melior = "*"
