[package]
name = "asmdiff"
version = "0.1.0"
edition = "2021"
publish = false

[dependencies]
capstone = "*"
clap = { version = "*", features = ["derive"] }
clap-num = "*"
fastxfix = "*"
similar = "*"
