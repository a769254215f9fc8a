[package]
name = "mwpf_web"
version = "0.1.0"
edition = "2021"
publish = false

[dependencies]
mwpf = "*"
rand = "0.9"
serde = { version = "1", features = ["derive"] }
serde_json = "1"
actix-web = "4"
clap = { version = "4", features = ["derive"] }
env_logger = "0.11"
log = "0.4"
num-traits = "0.2"
