[package]
name = "zwave_scan"
version = "0.1.0"
edition = "2021"
publish = false

[dependencies]
hackrfone = "*"
serde = { version = "1", features = ["derive"] }
serde_json = "1"
tokio = { version = "1", features = ["macros", "rt-multi-thread", "time"] }
