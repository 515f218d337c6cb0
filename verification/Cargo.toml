[package]
name = "maintenance_planner"
version = "0.1.0"
edition = "2021"
publish = false

[dependencies]
uuid = { version = "*", features = ["v4", "serde"] }
chrono = "*"
serde = { version = "*", features = ["derive"] }
serde_json = "*"
