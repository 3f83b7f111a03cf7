[package]
name = "ccooler"
version = "0.1.0"
edition = "2021"
publish = false

[dependencies]
log = "0.4"
serde = { version = "1", features = ["derive"] }
sysinfo = { version = "0.39", default-features = false, features = ["disk"] }
