[package]
name = "birthdays"
version = "0.1.0"
edition = "2021"
publish = false

[dependencies]
chrono = { version = "0.4", default-features = false, features = ["std"] }
csv = "1"
uuid = { version = "1", features = ["v4"] }
ics = "0.5"
