[package]
name = "veloterm"
version = "0.1.0"
edition = "2021"
publish = false

[dependencies]
linkify = "*"
winit = "*"
portable-pty = "*"
crossbeam-channel = "*"
log = "*"
env_logger = "*"
