[package]
name = "streaming_nn"
version = "0.1.0"
edition = "2021"
publish = false

[dependencies]
env_logger = "*"
log = "0.4"
snafu = "*"
statrs = "*"
structopt = "0.3"
