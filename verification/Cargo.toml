[package]
name = "faas_rust"
version = "0.1.0"
edition = "2021"
publish = false

[dependencies]
actix-web = "*"
hostname = "*"
uuid = { version = "*", features = ["v4"] }
