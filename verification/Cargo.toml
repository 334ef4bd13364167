[package]
name = "rust_mult_table"
version = "0.1.0"
edition = "2021"
publish = false

[dependencies]
anyhow = "=1.0.104"
iced = { version = "=0.12.1", default-features = false, features = ["lazy", "advanced", "tokio"] }
iced_aw = { version = "=0.9.3", default-features = false, features = ["menu", "card", "modal", "icons"] }
image = { version = "=0.24.9", default-features = false, features = ["png"] }
platform-dirs = "=0.3.0"
rand = "=0.8.8"
ron = "=0.8.1"
serde = { version = "=1.0.229", features = ["derive"] }
tokio = { version = "=1.54.1", features = ["fs", "io-util"] }
