[package]
name = "alt"
version = "0.1.0"
edition = "2021"
publish = false

[dependencies]
chrono = "*"
groq-api-rust = "*"
gtk4 = "*"
tokio = { version = "*", features = ["rt-multi-thread"] }
vte4 = "*"
