[package]
name = "kdbx_env"
version = "0.1.0"
edition = "2021"
publish = false

[dependencies]
anyhow = "=1.0.104"
clap = { version = "=4.6.7", features = ["derive"] }
env_logger = "=0.11.11"
keepass = "=0.7.33"
log = "=0.4.34"
rpassword = "=7.5.4"
