[package]
name = "procon"
version = "0.1.0"
edition = "2021"
publish = false

[dependencies]
anyhow = "1"
chrono = "0.4"
clap = { version = "4", features = ["derive"] }
env_logger = "0.11"
futures-util = "0.3"
hidapi = { version = "2", default-features = false, features = ["linux-native-basic-udev"] }
libc = "0.2"
log = "0.4"
num_cpus = "1"
serde = { version = "1", features = ["derive"] }
serde_json = "1"
tokio = { version = "1", features = ["full"] }
toml = "0.8"
usb-gadget = "0.7"
warp = "0.3"
