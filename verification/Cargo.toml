[package]
name = "deskassistant_driver"
version = "0.1.0"
edition = "2021"
publish = false

[dependencies]
anyhow = "1"
clap = { version = "4", features = ["derive"] }
image = "0.24"
imageproc = "0.23"
log = "0.4"
pretty_env_logger = "0.4"
pyo3 = "0.18"
rusb = "0.9"
