[package]
name = "election_core"
version = "0.1.0"
edition = "2021"
publish = false

[dependencies]
rand = "0.8"
chrono = "0.4"
serde = { version = "1", features = ["derive"] }
toml = "0.8"
sysinfo = "0.29"
