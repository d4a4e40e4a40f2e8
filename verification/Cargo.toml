[package]
name = "chess_uci"
version = "0.1.0"
edition = "2021"
publish = false

[dependencies]
shakmaty = "=0.30.1"
chess = "=3.2.0"
anyhow = "=1.0.104"
log = "=0.4.35"
env_logger = "=0.11.11"
nix = "=0.31.3"
shared_memory = "=0.12.4"
