[package]
name = "datapoints"
version = "0.1.0"
edition = "2021"
publish = false

[dependencies]
anyhow = "1"
csv = "1"
log = "0.4"
serde = { version = "1", features = ["derive"] }
serde_json = "1"
serde-jsonlines = "*"
uuid = { version = "1", features = ["v4", "serde"] }
