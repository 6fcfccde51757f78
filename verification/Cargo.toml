[package]
name = "pane_cycle"
version = "0.1.0"
edition = "2021"
publish = false

[dependencies]
anyhow = "1"
chrono = "0.4"
fs2 = "0.4"
serde = { version = "1", features = ["derive"] }
serde_json = "1"
toml = "0.8"
