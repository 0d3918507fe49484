[package]
name = "relayer_game"
version = "0.1.0"
edition = "2021"
publish = false

[dependencies]
clap = "*"
colored = "*"
failure = "*"
failure_derive = "*"
serde = { version = "*", features = ["derive"] }
serde_derive = "*"
toml = "*"
