[package]
name = "attendance_cli"
version = "0.1.0"
edition = "2021"
publish = false

[dependencies]
jiff = { version = "*", features = ["serde"] }
chrono = { version = "*", features = ["serde"] }
uuid = { version = "*", features = ["v4", "serde"] }
serde = { version = "*", features = ["derive"] }
serde_json = "*"
itertools = "*"
clap = { version = "*", features = ["derive"] }
clap_complete = "*"
clap_usage = "*"
comfy-table = "*"
tracing = "*"
tracing-subscriber = "*"
bon = "*"
