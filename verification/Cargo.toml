[package]
name = "klondike-rs"
version = "0.1.0"
edition = "2021"
publish = false

[dependencies]
termion = "1.5"
config = { version = "0.10", default-features = false, features = ["toml"] }
directories = "2.0"
serde = { version = "1.0", features = ["derive"] }
