[package]
name = "win_can_utils"
version = "0.1.0"
edition = "2021"
publish = false

[dependencies]
memchr = "2"
bincode = { version = "2", features = ["serde"] }
serde = { version = "1", features = ["derive"] }
serde_json = "1"
tokio = { version = "1", features = ["full"] }
tokio-serial = "5"
serialport = "4"
clap = { version = "4", features = ["derive"] }
log = "0.4"
env_logger = "0.11"
async-trait = "0.1"
futures = "0.3"
libusb1-sys = "0.7"
libc = "0.2"
