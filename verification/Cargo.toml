[package]
name = "bongo_cat"
version = "0.1.0"
edition = "2021"
publish = false

[dependencies]
serde = { version = "1", features = ["derive"] }
serde_json = "1"
uuid = { version = "1", features = ["v4"] }
chrono = "0.4"
dirs = "*"
log = "0.4"
thiserror = "*"
tokio = { version = "1", features = ["rt", "sync", "time", "macros"] }
futures = "0.3"
reqwest = { version = "0.12", default-features = false, features = ["json", "stream"] }
