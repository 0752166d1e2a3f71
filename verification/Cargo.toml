[package]
name = "delivery_lab"
version = "0.1.0"
edition = "2021"
publish = false

[dependencies]
anyhow = "1"
rdkafka = "*"
serde = { version = "1", features = ["derive"] }
serde_json = "1"
tokio = { version = "1", features = ["macros", "rt-multi-thread", "time"] }
toml = "*"
