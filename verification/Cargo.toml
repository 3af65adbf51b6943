[package]
name = "wagner_host"
version = "0.1.0"
edition = "2021"
publish = false

[dependencies]
serde = { version = "1", features = ["derive"] }
serde_json = "1"
thiserror = "1"
tokio = { version = "1", features = ["sync", "rt", "macros", "process", "io-util", "time"] }
futures = "0.3"
async-trait = "0.1"
ulid = "1"
chrono = { version = "0.4", default-features = false, features = ["clock", "std"] }
schemars = "0.8"
jsonschema = { version = "0.18", default-features = false }
reqwest = { version = "0.12", default-features = false, features = ["json"] }
