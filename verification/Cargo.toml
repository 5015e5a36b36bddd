[package]
name = "prompt_vault"
version = "0.1.0"
edition = "2021"
publish = false

[dependencies]
chrono = "0.4"
gray_matter = "0.2"
log = "0.4"
notify = "6"
serde = { version = "1", features = ["derive"] }
serde_json = "1"
serde_yaml = "0.9"
sha2 = "0.10"
specta = "1"
sqlx = { version = "0.7", default-features = false, features = ["sqlite", "runtime-tokio"] }
thiserror = "1"
toml = "0.8"
uuid = { version = "1", features = ["v4"] }
