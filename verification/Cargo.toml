[package]
name = "msv_supervisor"
version = "0.1.0"
edition = "2021"
publish = false

[dependencies]
subtle = "=2.6.1"
uuid = { version = "=1.29.0", features = ["v4"] }
serde = { version = "=1.0.229", features = ["derive"] }
serde_json = "=1.0.154"
chrono = "=0.4.45"
libc = "=0.2.191"
dirs = "=7.0.0"
croner = "=2.2.0"
chrono-tz = "=0.10.4"
notify = "8"
reqwest = { version = "0.12", default-features = false, features = ["blocking"] }
