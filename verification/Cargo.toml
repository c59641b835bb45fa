[package]
name = "training_core"
version = "0.1.0"
edition = "2021"
publish = false

[dependencies]
bcrypt = "*"
uuid = { version = "*", features = ["v4"] }
chrono = "*"
actix-web = "*"
actix-cors = "*"
serde = { version = "*", features = ["derive"] }
serde_json = "*"
