[package]
name = "ampiato"
version = "0.1.0"
edition = "2021"
publish = false

[dependencies]
chrono = "*"
sqlx = { version = "*", default-features = false, features = ["runtime-tokio", "postgres"] }
tokio = { version = "*", features = ["rt-multi-thread", "macros"] }
rand = "*"
colored = "*"
prettytable-rs = "*"
