[package]
name = "rw3d"
version = "0.1.0"
edition = "2021"
publish = false

[dependencies]
anyhow = "1"
clap = { version = "3", features = ["derive"] }
colored = "2"
ctrlc = "3"
dashmap = "5"
directories = "5"
