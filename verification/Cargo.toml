[package]
name = "adsb_globe"
version = "0.1.0"
edition = "2021"
publish = false

[dependencies]
bevy = { version = "=0.17.3", default-features = false, features = ["std", "async_executor", "multi_threaded", "bevy_log"] }
chrono = "=0.4.45"
ehttp = { version = "=0.7.2", features = ["native-async"] }
url = "=2.5.8"
