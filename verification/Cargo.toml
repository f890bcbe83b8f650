[package]
name = "rusty_snake"
version = "0.1.0"
edition = "2021"
publish = false

[dependencies]
bincode = "1.3"
crossterm = "0.27"
lazy_static = "1.4"
rand = "0.8"
serde = { version = "1.0", features = ["derive"] }
tokio = { version = "1", features = ["full"] }
toml = "0.8"
