[package]
name = "serde_arrow"
version = "0.1.0"
edition = "2021"
publish = false

[dependencies]
arrow2 = "0.17"
serde = "1"
serde_json = "1"

[dev-dependencies]
chrono = { version = "0.4", default-features = false, features = ["serde", "std"] }
