[package]
name = "cp-with-usrbio"
version = "0.1.0"
edition = "2021"
publish = false

[dependencies]
anyhow = "1"
clap = { version = "4", features = ["derive"] }
crossbeam = "0.8"
ctrlc = "3"
indicatif = "0.17"
libc = "0.2"
serde = { version = "1", features = ["derive"] }
serde_json = "1"
shared_memory = "0.12"
uuid = { version = "1", features = ["v4"] }
walkdir = "2"
