[package]
name = "oxidinetd"
version = "0.1.0"
edition = "2021"
publish = false

[dependencies]
async-channel = "*"
clap = { version = "*", features = ["derive"] }
ctrlc = "*"
futures-lite = "*"
serde = { version = "*", features = ["derive"] }
smol = "*"
toml = "*"
