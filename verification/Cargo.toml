[package]
name = "abridge"
version = "0.1.0"
edition = "2021"
publish = false

[dependencies]
adb_client = "*"
anyhow = "1"
base64 = "0.22"
clap = { version = "4", features = ["derive"] }
leptess = "*"
rmcp = { version = "*", features = ["server", "macros", "transport-io", "schemars"] }
serde = { version = "1", features = ["derive"] }
serde_json = "1"
tokio = { version = "1", features = ["full"] }
tracing = "0.1"
tracing-subscriber = { version = "0.3", features = ["env-filter"] }
