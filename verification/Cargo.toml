[package]
name = "neo"
version = "0.1.0"
edition = "2021"
publish = false

[dependencies]
scraper = "=0.29.0"
serde = { version = "=1.0.229", features = ["derive"] }
serde_json = "=1.0.154"
tokio = { version = "=1.54.1", features = ["rt-multi-thread", "macros", "sync"] }
reqwest = "=0.13.5"
chrono = "=0.4.45"
clap = { version = "=4.6.7", features = ["derive"] }
