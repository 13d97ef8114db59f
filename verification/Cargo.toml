[package]
name = "combat"
version = "0.1.0"
edition = "2021"
publish = false

[dependencies]
dice-roller = "*"
serde = { version = "*", features = ["derive"] }
serde_json = "*"
clap = "*"
