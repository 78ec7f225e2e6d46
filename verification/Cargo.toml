[package]
name = "something"
version = "0.1.0"
edition = "2021"
publish = false

[dependencies]
base64 = "0.22"
serde = { version = "1", features = ["derive"] }
serde_json = "1"
thiserror = "2"
tokio = { version = "1", features = ["rt", "time", "macros"] }
aws-config = { version = "1", features = ["behavior-version-latest"] }
aws-sdk-lambda = "1"
lambda_runtime = "*"

[dev-dependencies]
prost = "0.13"
