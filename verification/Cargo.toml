[package]
name = "rustmatica"
version = "0.1.0"
edition = "2021"
publish = false

[dependencies]
fastnbt = "2"
serde = { version = "1", features = ["derive"] }
chrono = "0.4"
