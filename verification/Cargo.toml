[package]
name = "cyclo"
version = "0.1.0"
edition = "2021"
publish = false

[dependencies]
btleplug = "0.11"
futures = "0.3"
iced = { version = "0.10", default-features = false, features = ["tokio"] }
thiserror = "1"
tokio = { version = "1", features = ["rt", "time"] }
uuid = "1"
