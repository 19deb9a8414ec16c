[package]
name = "serde_kdl2"
version = "0.1.0"
edition = "2021"
publish = false

[dependencies]
kdl = "6.5"
serde = { version = "1", features = ["derive"] }
thiserror = "2"
