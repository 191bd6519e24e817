[package]
name = "echo_server"
version = "0.1.0"
edition = "2021"
publish = false

[dependencies]
prost = "0.13"
log = "0.4"
env_logger = "0.11"
