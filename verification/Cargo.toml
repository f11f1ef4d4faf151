[package]
name = "snake_arena"
version = "0.1.0"
edition = "2021"
publish = false

[dependencies]
rand = "0.8"
bincode = "1"
serde = { version = "1", features = ["derive"] }
tokio = { version = "1", features = ["full"] }
random_color = "*"
