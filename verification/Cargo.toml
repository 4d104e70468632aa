[package]
name = "paimon_write"
version = "0.1.0"
edition = "2021"
publish = false

[dependencies]
arrow-array = "=60.1.0"
arrow-ord = "=60.1.0"
arrow-schema = "=60.1.0"
arrow-select = "=60.1.0"
chrono = "=0.4.45"
tokio = { version = "=1.54.1", features = ["rt", "macros"] }
uuid = { version = "=1.29.0", features = ["v4"] }

[dev-dependencies]
arrow-buffer = "=60.1.0"
