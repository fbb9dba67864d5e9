[package]
name = "fortress_sim"
version = "0.1.0"
edition = "2021"
publish = false

[dependencies]
bincode = "1"
macroquad = "0.4"
pathfinding = "4"
rand = "0.8"
serde = { version = "1", features = ["derive"] }
serde_json = "1"
