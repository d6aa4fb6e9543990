[package]
name = "completions"
version = "0.1.0"
edition = "2021"
publish = false

[dependencies]
serde_json = "1"
bytes = "1"
futures = "0.3"
log = "0.4"
tokio = { version = "1", default-features = false, features = ["sync", "time", "rt"] }
