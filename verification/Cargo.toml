[package]
name = "glue_jobs"
version = "0.1.0"
edition = "2021"
publish = false

[dependencies]
anyhow = "*"
aws-config = "*"
aws-sdk-glue = "*"
aws-sdk-iam = "*"
chrono = "*"
clap = { version = "*", features = ["derive"] }
indicatif = "*"
inquire = { version = "*", features = ["date"] }
tokio = { version = "*", features = ["macros", "rt-multi-thread"] }
