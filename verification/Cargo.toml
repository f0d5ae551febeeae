[package]
name = "rjrssync"
version = "0.1.0"
edition = "2021"
publish = false

[dependencies]
regex = "1"
yaml-rust = "0.4"
aes-gcm = "0.10"
aead = "0.5"
base64 = "0.21"
bincode = "1"
serde = { version = "1", features = ["derive"] }
serde_bytes = "0.11"
clap = { version = "4", features = ["derive"] }
clap_complete = "4"
env_logger = "0.10"
log = "0.4"
indicatif = "0.17"
filetime = "0.2"
tempdir = "0.3"
num_cpus = "1"
crossbeam = "0.8"
exe = "0.5"
