[package]
name = "iceberg"
version = "0.1.0"
edition = "2021"
publish = false

[dependencies]
chrono = "=0.4.45"
regex = "=1.13.1"
serde = { version = "=1.0.229", features = ["derive"] }
serde_json = "=1.0.154"
url = "=2.5.8"
worker = "=0.8.7"
futures = "=0.3.34"
once_cell = "=1.21.4"
console_error_panic_hook = "=0.1.7"
