[package]
name = "appmgr"
version = "0.1.0"
edition = "2021"
publish = false

[dependencies]
torut = { version = "0.2", default-features = false, features = ["v3"] }
tokio = { version = "1", features = ["sync", "rt", "macros", "time"] }
bollard = { version = "0.11" }
futures = { version = "0.3" }
anyhow = { version = "1" }
