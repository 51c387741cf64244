[package]
name = "sda"
version = "0.1.0"
edition = "2021"
publish = false

[dependencies]
uuid = { version = "0.4", features = ["v4"] }
data-encoding = "1"
serde = { version = "1", features = ["derive"] }
serde_json = "1"
rouille = "3"
jfs = "*"
clap = "2"
