[package]
name = "iboardbot-web"
version = "0.1.0"
edition = "2021"
publish = false

[dependencies]
serde = { version = "*", features = ["derive"] }
serde_json = "*"
svg2polylines = "*"
serial = "*"
time = { version = "*", features = ["local-offset"] }
