[package]
name = "hppt"
version = "0.1.0"
edition = "2021"
publish = false

[dependencies]
chrono = "0.2"
clap = "2"
env_logger = "0.3"
log = "0.3"
mioco = "0.8"
