[package]
name = "transcriptor"
version = "0.1.0"
edition = "2021"
publish = false

[dependencies]
anyhow = "1"
url = "2"
chrono = "0.4"
uuid = { version = "1", features = ["v4"] }
urlencoding = "2"
serde = { version = "1", features = ["derive"] }
serde_json = "1"
serde_yaml = "0.9"
clap = { version = "4", features = ["derive"] }
dirs = "5"
fs-err = "2"
thiserror = "1"
tokio = { version = "1", features = ["rt-multi-thread", "macros", "time", "fs", "process"] }
reqwest = { version = "0.12", default-features = false, features = ["rustls-tls"] }
aws-config = "1"
aws-sdk-s3 = "1"
aws-sdk-transcribe = "1"
indicatif = "0.17"
tracing = "0.1"
tracing-subscriber = { version = "0.3", features = ["env-filter"] }
async-trait = "0.1"
futures-util = "0.3"
tempfile = "3"
