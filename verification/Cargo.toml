[package]
name = "nosql_db"
version = "0.1.0"
edition = "2021"
publish = false

[dependencies]
env_logger = "*"
log = "*"
parking_lot = "*"
thiserror = "*"
tokio = { version = "*", features = ["rt", "sync"] }
