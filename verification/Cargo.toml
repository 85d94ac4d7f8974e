[package]
name = "proxy_race"
version = "0.1.0"
edition = "2021"
publish = false

[dependencies]
clap = { version = "*", features = ["derive"] }
indicatif = "*"
tokio = { version = "*", features = ["macros", "rt-multi-thread", "sync"] }
