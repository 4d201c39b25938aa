[package]
name = "teketeke"
version = "0.1.0"
edition = "2021"
publish = false

[dependencies]
futures = "0.3"
futures-locks = "0.7"
hyper = { version = "0.14", features = ["full"] }
hyper-staticfile = "0.9"
tokio = { version = "1", features = ["full"] }
lazy_static = "1"
serde = "1"
serde_derive = "1"
serde_json = "1"

[dev-dependencies]
regex = "1"
