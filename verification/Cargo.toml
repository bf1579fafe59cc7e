[package]
name = "dynamodb_violation_detector"
version = "0.1.0"
edition = "2021"
publish = false

[dependencies]
aws-config = { version = "1", features = ["behavior-version-latest"] }
aws-sdk-dynamodb = "1"
base64 = "=0.22.1"
clap = { version = "=4.6.7", features = ["derive"] }
csv = "=1.4.0"
ratatui = "=0.29.0"
serde = { version = "=1.0.229", features = ["derive"] }
serde_json = "=1.0.154"
tokio = { version = "=1.54.1", features = ["full"] }
toml = "=0.9.12"
