[package]
name = "measurements"
version = "0.1.0"
edition = "2021"
publish = false

[dependencies]
num-rational = { version = "0.4", default-features = false, features = ["serde"] }
nom = "7"
serde = { version = "1", features = ["derive"] }
thiserror = "1"
