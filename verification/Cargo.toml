[package]
name = "envop"
version = "0.1.0"
edition = "2021"
publish = false

[dependencies]
argh = "*"
glob = "*"
inquire = "*"
serde = { version = "*", features = ["derive"] }
serde_json = "*"
