[package]
name = "moviedb"
version = "0.1.0"
edition = "2021"
publish = false

[dependencies]
urlencoding = "2.1"
serde = { version = "1.0", features = ["derive"] }
serde_json = "1.0"
reqwest = { version = "0.11", features = ["blocking", "json"] }
tokio = { version = "1", features = ["rt"] }
futures = "0.3"
async-channel = "2"
dirs = "5"
gtk4 = { version = "0.7", features = ["v4_10"] }
