[package]
name = "ezr"
version = "0.1.0"
edition = "2021"
publish = false

[dependencies]
regex = "1"
structopt = "0.3"
exitcode = "1"
log = "0.4"
pretty_env_logger = "0.4"
