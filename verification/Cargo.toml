[package]
name = "esp_host_bridge"
version = "0.1.0"
edition = "2021"
publish = false

[dependencies]
anyhow = "1"
clap = { version = "4", features = ["derive"] }
env_logger = "0.11"
gethostname = "0.5"
log = "0.4"
serialport = "4"
sysinfo = "0.33"
