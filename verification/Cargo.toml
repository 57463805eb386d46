[package]
name = "parser"
version = "0.1.0"
edition = "2021"
publish = false

[dependencies]
clap = "*"
log = "*"
pretty_env_logger = "*"
