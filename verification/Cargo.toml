[package]
name = "jevon"
version = "0.1.0"
edition = "2021"
publish = false

[dependencies]
futures = "=0.3.34"
incurs = "=0.14.0"
indexmap = { version = "=2.14.2", features = ["serde"] }
schemars = { version = "=1.2.3", features = ["indexmap2"] }
serde = { version = "=1.0.229", features = ["derive"] }
serde_json = "=1.0.154"
