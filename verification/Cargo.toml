[package]
name = "balance"
version = "0.1.0"
edition = "2021"
publish = false

[dependencies]
anyhow = "1"
chrono = { version = "0.4", default-features = false, features = ["std", "clock"] }
clap = { version = "4", features = ["derive"] }
confy = "*"
edit = "0.1"
rust_decimal = "1"
serde = { version = "1", features = ["derive"] }
