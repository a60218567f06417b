[package]
name = "bedwars"
version = "0.1.0"
edition = "2021"
publish = false

[dependencies]
tokio = { version = "1", features = ["full"] }
serde = { version = "1", features = ["derive"] }
serde_json = "1"
fastnbt = "*"
uuid = "1"
figment = { version = "*", features = ["toml"] }
color-eyre = "*"
tracing = "*"
tracing-subscriber = { version = "*", features = ["env-filter"] }
thiserror = "*"
bitflags = "2"
num2words = "*"
