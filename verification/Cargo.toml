[package]
name = "disaity"
version = "0.1.0"
edition = "2021"
publish = false

[dependencies]
rand = "=0.9.5"
scraper = { version = "=0.29.0", default-features = false }
serde = { version = "=1.0.229", features = ["derive"] }
serde_json = "=1.0.154"
tokio = { version = "=1.54.1", features = ["macros", "rt-multi-thread", "sync", "time", "process"] }
reqwest = "=0.12.28"
serenity = "=0.12.5"
poise = "=0.6.2"
dotenv = "=0.15.0"
serde_yaml = "0.9"
tracing = "=0.1.44"
tracing-subscriber = "0.3"
gemini-rust = "*"
