[package]
name = "playform"
version = "0.1.0"
edition = "2021"
publish = false

[dependencies]
time = "=0.1.45"
log = "=0.4.35"
env_logger = "=0.11.11"
gl = "0.14"
