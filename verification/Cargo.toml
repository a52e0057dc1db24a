[package]
name = "aicacia_db"
version = "0.1.0"
edition = "2021"
publish = false

[dependencies]
async-lock = "=3.5.0"
async-stream = "=0.3.6"
futures = "=0.3.34"
hashbrown = "=0.17.1"
redb = "=4.4.0"
serde = { version = "=1.0.229", features = ["derive"] }
serde_json = "=1.0.154"
sqlparser = "=0.60.0"
thiserror = "=2.0.21"
uuid = "=1.29.0"
