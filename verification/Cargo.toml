[package]
name = "signal_filters"
version = "0.1.5"
edition = "2021"
publish = false

[dependencies]
num-traits = { version = "0.2", default-features = false }
vqm = "*"
serde = { version = "1", features = ["derive"] }
