[package]
name = "amarillo"
version = "0.1.0"
edition = "2021"
publish = false

[dependencies]
rand = { version = "0.7", features = ["small_rng"] }
serde = { version = "1", features = ["derive"] }
strip-ansi-escapes = "0.1"
tensorflow = "*"
termion = "1"
