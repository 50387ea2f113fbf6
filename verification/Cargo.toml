[package]
name = "edv"
version = "0.1.0"
edition = "2021"
publish = false

[dependencies]
uuid = { version = "1", features = ["v4"] }
chrono = "0.4"
serde = { version = "1", features = ["derive"] }
serde_json = "1"
num_cpus = "1"
rayon = "1"
thiserror = "1"

[dev-dependencies]
tempfile = "3"
