[package]
name = "termpipe"
version = "0.1.0"
edition = "2021"
publish = false

[dependencies]
crossterm = "*"
log = "*"
serde = { version = "*", features = ["derive"] }
simplelog = "*"
uuid = { version = "*", features = ["v4", "serde"] }
