[package]
name = "filter_aggregator"
version = "0.1.0"
edition = "2021"
publish = false

[dependencies]
serde = { version = "1", features = ["derive"] }
serde_json = "1"
tokio = { version = "1", features = ["full"] }
reqwest = { version = "0.11", default-features = false }
actix-web = { version = "4", default-features = false, features = ["macros"] }
