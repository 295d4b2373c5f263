[package]
name = "qscaler"
version = "0.1.0"
edition = "2021"
publish = false

[dependencies]
aws-config = "1"
aws-sdk-sqs = "1"
clap = { version = "4", features = ["derive"] }
sysinfo = "*"
tokio = { version = "1", features = ["macros", "rt-multi-thread", "time"] }
