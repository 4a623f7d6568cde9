[package]
name = "mcstat"
version = "0.1.0"
edition = "2021"
publish = false

[dependencies]
crossterm = "*"
unicode-width = "*"
clap = { version = "*", features = ["derive"] }
tokio = { version = "*", features = ["rt-multi-thread", "macros", "time"] }
async-minecraft-ping = "*"
serde_json = "*"
base64 = "*"
image = "*"
viuer = "*"
