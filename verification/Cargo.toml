[package]
name = "combat_eval"
version = "0.1.0"
edition = "2021"
publish = false

[dependencies]
screeps-game-api = "*"
serde = { version = "1", features = ["derive"] }
serde_json = "1"
