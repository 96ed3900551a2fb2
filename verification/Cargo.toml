[package]
name = "rstock"
version = "0.1.0"
edition = "2021"
publish = false

[dependencies]
chrono = "0.4"
anyhow = "1"
serde = { version = "1", features = ["derive"] }
serde_json = "1"
tokio = { version = "1", features = ["full"] }
axum = "0.8"
reqwest = { version = "0.12", default-features = false, features = ["json"] }
toml = "0.8"
tracing = "0.1"
tracing-subscriber = { version = "0.3", features = ["env-filter", "json"] }
clap = { version = "4", features = ["derive", "env"] }
futures-util = "0.3"
bytes = "1"
csv = "1"
zip = { version = "2", default-features = false, features = ["deflate"] }
polars = { version = "0.46", default-features = false }
arrow-array = "54"
arrow-schema = "54"
parquet = { version = "54", default-features = false, features = ["arrow", "snap"] }
tonic = "0.12"
