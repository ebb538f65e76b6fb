[package]
name = "mirkobo"
version = "0.1.0"
edition = "2021"
publish = false

[dependencies]
clap = { version = "=4.6.7", features = ["derive"] }
env_logger = "=0.11.11"
log = "=0.4.35"
message-io = "=0.19.0"
scrap = "=0.5.0"
libwayshot = "=0.2.0"
magick_rust = "=0.19.1"

[dev-dependencies]
bincode = "=1.3.3"
