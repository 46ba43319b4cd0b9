[package]
name = "queueing-theory"
version = "0.1.0"
edition = "2021"
publish = false

[dependencies]
serde = { version = "=1.0.229", features = ["derive"] }
nalgebra = { version = "=0.33.3", features = ["serde-serialize"] }
