[package]
name = "mosm"
version = "0.1.0"
edition = "2021"
publish = false

[dependencies]
anyhow = "1"
bytemuck = { version = "1", features = ["derive"] }
dashmap = "6"
osmpbf = "0.3"
rstar = "0.12"
serde = { version = "1", features = ["derive"] }
tokio = { version = "1", features = ["rt"] }
