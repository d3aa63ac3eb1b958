[package]
name = "jankloada_lib"
version = "0.1.0"
edition = "2021"
publish = false

[dependencies]
anyhow = "1"
directories = "4"
iced = "0.8"
serde = { version = "1", features = ["derive"] }
serde_json = "1"
toml = "0.7"
