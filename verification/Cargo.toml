[package]
name = "brush_traffic"
version = "0.1.0"
edition = "2021"
publish = false

[dependencies]
anyhow = "*"
async-channel = "*"
async-trait = "*"
clap = { version = "*", features = ["derive"] }
fake-useragent = "*"
futures = "*"
reqwest = { version = "*", default-features = false }
tokio = { version = "*", features = ["rt-multi-thread", "macros", "time"] }
