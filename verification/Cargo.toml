[package]
name = "devscan"
version = "0.1.0"
edition = "2021"
publish = false

[dependencies]
serialport = { version = "=4.10.1", default-features = false }
clap = { version = "=4.6.7", features = ["derive"] }
serde = { version = "=1.0.229", features = ["derive"] }
log = "=0.4.34"
simple_logger = "=5.2.0"
onestop = { version = "=0.0.2", features = ["utils"] }
toml = "*"
