[package]
name = "ractor_supervisor"
version = "0.1.0"
edition = "2021"
publish = false

[dependencies]
futures-util = "0.3"
log = "0.4"
ractor = "0.15"
tokio = { version = "1", features = ["macros", "rt", "sync", "time"] }
