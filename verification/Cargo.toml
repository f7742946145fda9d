[package]
name = "airq"
version = "0.1.0"
edition = "2021"
publish = false

[dependencies]
cities = "*"
anyhow = "1"
clap = { version = "4", features = ["derive"] }
clap_complete = "4"
colored = "*"
serde = { version = "1", features = ["derive"] }
serde_json = "1"
tokio = { version = "1", features = ["full"] }
toml = "*"
dirs = "*"
petgraph = "*"
reqwest = { version = "*", default-features = false, features = ["json"] }
axum = "*"
rusqlite = "*"
chrono = "*"
futures = "*"
