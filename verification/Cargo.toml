[package]
name = "deckocr"
version = "0.1.0"
edition = "2021"
publish = false

[dependencies]
serde_json = "1"
serde = { version = "1", features = ["derive"] }
anyhow = "1"
attohttpc = { version = "0.29", default-features = false, features = ["json"] }
tungstenite = "0.27"
dirs = "6"
