[package]
name = "series_csv"
version = "0.1.0"
edition = "2021"
publish = false

[dependencies]
chrono = "0.4"
actix-web = "4"
serde = { version = "1", features = ["derive"] }
serde_json = "1"
webbrowser = "1"
lazy_static = "1"
