[package]
name = "jabcoin"
version = "0.1.0"
edition = "2021"
publish = false

[dependencies]
rsa = "0.9"
sha2 = "0.10"
rand = "0.8"
serde = { version = "1", features = ["derive"] }
serde_json = "1"
log = "0.4"
env_logger = "0.10"
ctrlc = "3"
