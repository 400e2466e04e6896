[package]
name = "netdiscover"
version = "0.1.0"
edition = "2021"
publish = false

[dependencies]
clap = { version = "*", features = ["derive"] }
serde = { version = "*", features = ["derive"] }
toml = "*"
tokio = { version = "*", features = ["rt-multi-thread", "time", "net"] }
futures = "*"
ping-rs = "*"
network-interface = "*"
