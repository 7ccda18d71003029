[package]
name = "ranked_songs"
version = "0.1.0"
edition = "2021"
publish = false

[dependencies]
env_logger = "0.11"
log = "0.4"
reqwest = { version = "0.12", features = ["blocking"] }
rusqlite = "0.32"
serde = { version = "1", features = ["derive"] }
serde_json = "1"
url = "2"
