[package]
name = "mcscrape"
version = "0.1.0"
edition = "2021"
publish = false

[dependencies]
tokio = { version = "*", features = ["macros", "net", "rt-multi-thread", "sync", "time"] }
serde = { version = "*", features = ["derive"] }
serde_json = "*"
rand = "*"
influxdb = { version = "*", features = ["derive"] }
