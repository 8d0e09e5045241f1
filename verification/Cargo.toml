[package]
name = "crowd_levels"
version = "0.1.0"
edition = "2021"
publish = false

[dependencies]
regex = "*"
scraper = "*"
serde = { version = "*", features = ["derive"] }
serde_json = "*"
