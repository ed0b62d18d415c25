[package]
name = "memeinator"
version = "0.1.0"
edition = "2021"
publish = false

[dependencies]
image = "0.23"
fontdue = "0.7"
serde = { version = "1", features = ["derive"] }
serde_json = "1"
anyhow = "1"
dirs = "4"
structopt = "0.3"
