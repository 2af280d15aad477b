[package]
name = "amadeus"
version = "0.1.0"
edition = "2021"
publish = false

[dependencies]
rusoto_core = { version = "*", default-features = false, features = ["rustls"] }
rusoto_s3 = { version = "*", default-features = false, features = ["rustls"] }
tokio = { version = "*", features = ["rt", "io-util", "macros"] }
futures = "*"
serde = { version = "*", features = ["derive"] }
url = "*"
