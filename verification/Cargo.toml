[package]
name = "pubsub"
version = "1.0.0"
edition = "2021"
publish = false

[dependencies]
anyhow = "1"
byteorder = "1"
clap = { version = "4", features = ["derive"] }
crossbeam = "0.8"
ctrlc = "3"
env_logger = "0.10"
log = "0.4"
polling = "2"
rand = "0.8"
strum_macros = "0.25"
thiserror = "1"
uuid = { version = "1", features = ["v4"] }
