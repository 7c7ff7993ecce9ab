[package]
name = "luma_cal"
version = "0.1.0"
edition = "2021"
publish = false

[dependencies]
ical = "*"
chrono = "*"
serde_json = "*"
serde = { version = "*", features = ["derive"] }
reqwest = { version = "*", default-features = false, features = ["blocking", "json"] }
tokio = { version = "*", features = ["rt-multi-thread", "time", "macros"] }
deadpool-postgres = "*"
tokio-postgres = { version = "*", features = ["with-chrono-0_4"] }
clap = { version = "*", features = ["derive"] }
colored = "*"
thiserror = "*"
