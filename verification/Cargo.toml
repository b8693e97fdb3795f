[package]
name = "my_little_cardgame"
version = "0.1.0"
edition = "2021"
publish = false

[dependencies]
rand = "0.8"
rand_pcg = "0.3"
serde = { version = "1", features = ["derive"] }
serde_json = "1"
sha2 = "0.10"
rocket = { version = "0.5", features = ["json"] }
rocket_okapi = { version = "0.9", features = ["swagger"] }
env_logger = "0.11"
