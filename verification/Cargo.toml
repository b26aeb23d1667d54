[package]
name = "sewers"
version = "0.1.0"
edition = "2021"
publish = false

[dependencies]
rand = "*"
serde = { version = "*", features = ["derive"] }
serde_derive = "*"
serde_json = "*"
tcod = "*"
