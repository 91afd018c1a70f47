[package]
name = "lunar_ics"
version = "0.1.0"
edition = "2021"
publish = false

[dependencies]
korean-lunar-calendar = "=1.0.0"
chrono = "=0.4.45"

[dev-dependencies]
ical = { version = "=0.11.0", features = ["generator"] }
