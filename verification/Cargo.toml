[package]
name = "cdviz_collector"
version = "0.1.0"
edition = "2021"
publish = false

[dependencies]
cdevents-sdk = "*"
clap = { version = "*", features = ["derive", "env"] }
figment = { version = "*", features = ["toml"] }
futures = "*"
serde = "*"
tokio = { version = "*", features = ["macros", "rt-multi-thread", "sync"] }

[dev-dependencies]
serde_json = "*"
