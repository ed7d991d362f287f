[package]
name = "dotfiles"
version = "0.1.0"
edition = "2021"
publish = false

[dependencies]
async-recursion = "=1.2.0"
clap = { version = "=4.6.7", features = ["derive", "env"] }
futures = "=0.3.34"
log = "=0.4.34"
pretty_env_logger = "=0.5.0"
tokio = { version = "=1.54.1", features = ["fs", "io-util", "macros", "process", "rt-multi-thread"] }
toml = "=1.1.8"
xdg = "=2.5.2"
