[package]
name = "sooth"
version = "0.1.0"
edition = "2021"
publish = false

[dependencies]
maud = "*"
serde = { version = "1", features = ["derive"] }
time = { version = "0.3", features = ["formatting"] }
