[package]
name = "ttl_sweep"
version = "0.1.0"
edition = "2021"
publish = false

[dependencies]
humantime = "*"
notify = "*"
walkdir = "*"
log = "*"
env_logger = "*"
