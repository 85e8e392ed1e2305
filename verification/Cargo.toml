[package]
name = "touche"
version = "0.1.0"
edition = "2021"
publish = false

[dependencies]
chrono = "0.4"
env_logger = "0.11"
evdev = "0.13"
futures-lite = "2"
log = "0.4"
nusb = "0.1"
