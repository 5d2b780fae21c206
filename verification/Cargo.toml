[package]
name = "job_tracker"
version = "0.1.0"
edition = "2021"
publish = false

[dependencies]
chrono = "*"
urlencoding = "*"
webbrowser = "*"

[dev-dependencies]
serde_json = "*"
