[package]
name = "npkg"
version = "0.1.0"
edition = "2021"
publish = false

[dependencies]
serde_json = "*"
serde = { version = "*", features = ["derive"] }
clap = { version = "*", features = ["derive"] }
owo-colors = "*"
bimap = { version = "*", features = ["serde"] }
brotli = "*"
curl = "*"
