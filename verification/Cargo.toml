[package]
name = "grafted"
version = "0.1.0"
edition = "2021"
publish = false

[dependencies]
goblin = "0.9"
libc = "0.2"
nix = { version = "0.29", features = ["mman", "ioctl"] }
clap = { version = "4", features = ["derive"] }
env_logger = "0.11"
log = "0.4"
thiserror = "1"
lazy_static = "1"
