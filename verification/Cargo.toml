[package]
name = "eventledger_core"
version = "0.1.0"
edition = "2021"
publish = false

[dependencies]
sha2 = "0.10"
base64 = "0.22"
chrono = { version = "0.4", features = ["serde"] }
serde_json = "1"
serde = { version = "1", features = ["derive"] }
serde_dynamo = { version = "4", features = ["aws-sdk-dynamodb+1"] }
thiserror = "1"
aws-config = "1"
aws-sdk-dynamodb = "1"
aws_lambda_events = { version = "*", default-features = false, features = ["dynamodb"] }
lambda_http = "*"
lambda_runtime = "*"
tokio = { version = "1", features = ["macros", "rt-multi-thread"] }
tracing = "0.1"
tracing-subscriber = "0.3"
