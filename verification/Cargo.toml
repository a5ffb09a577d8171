[package]
name = "presence_registry"
version = "0.1.0"
edition = "2021"
publish = false

[dependencies]
axum = "*"
jiff = "*"
serde = { version = "*", features = ["derive"] }
shuttle-axum = "*"
shuttle-runtime = "*"
tracing = "*"
tracing-subscriber = "*"
