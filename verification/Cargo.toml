[package]
name = "mysql_executor"
version = "0.1.0"
edition = "2021"
publish = false

[dependencies]
base64 = "=0.22.1"
chrono = "=0.4.45"
env_logger = "=0.11.11"
fs2 = "=0.4.3"
fslock = "=0.2.1"
log = "=0.4.35"
mysql = { version = "=28.0.4", default-features = false, features = ["minimal-rust"] }
parking_lot = "=0.12.5"
rayon = "=1.12.0"
serde = { version = "=1.0.229", features = ["derive"] }
serde_json = "=1.0.154"
thiserror = "=2.0.21"
toml = "=1.1.8"
uuid = { version = "=1.29.0", features = ["v4"] }
walkdir = "=2.5.0"
