[package]
name = "roguelike"
version = "0.1.0"
edition = "2021"
publish = false

[dependencies]
rltk = { version = "0.8", features = ["serde"] }
serde = { version = "1", features = ["derive"] }
serde_json = "1"
