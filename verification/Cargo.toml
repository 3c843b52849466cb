[package]
name = "carrier_pigeon"
version = "0.1.0"
edition = "2021"
publish = false

[dependencies]
chrono = "0.4"
crossterm = "0.28"
lipsum = "0.9"
rand = "0.8"
ratatui = "0.29"
tokio = { version = "1", features = ["macros", "rt-multi-thread", "sync", "time"] }
uuid = { version = "1", features = ["v7"] }
