[package]
name = "floorplan"
version = "0.1.0"
edition = "2021"
publish = false

[dependencies]
nanoid = "=0.5.0"
opencv = "=0.101.1"
rocket = { version = "=0.5.2", features = ["json"] }
serde = { version = "1", features = ["derive"] }
