[package]
name = "logstore"
version = "0.1.0"
edition = "2021"
publish = false

[dependencies]
chrono = "*"
serde = { version = "*", features = ["derive"] }
serde_json = "*"
actix-web = "*"
actix-files = "*"
tokio = { version = "*", features = ["sync", "time", "macros", "rt-multi-thread"] }
futures = "*"
bytes = "*"
prometheus = "*"
config = { version = "*", default-features = false, features = ["toml"] }
