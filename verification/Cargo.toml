[package]
name = "daf"
version = "0.1.0"
edition = "2021"
publish = false

[dependencies]
lru = "*"
sled = "*"
async-trait = "*"
tokio = { version = "1", features = ["sync", "rt", "macros"] }
moka = { version = "*", features = ["future"] }
redis = { version = "*", features = ["tokio-comp", "connection-manager"] }
serde = { version = "1", features = ["derive"] }
serde_json = "1"
chrono = { version = "0.4", features = ["serde"] }
thiserror = "*"
