[package]
name = "fhe_image"
version = "0.1.0"
edition = "2021"
publish = false

[dependencies]
tfhe = { version = "=0.2.5", features = ["boolean", "shortint", "integer", "x86_64-unix"] }
rayon = "=1.12.0"
bincode = "=1.3.3"
serde = { version = "=1.0.229", features = ["derive"] }
png = "=0.17.16"
clap = { version = "=4.6.7", features = ["derive"] }
log = "=0.4.34"
pretty_env_logger = "=0.5.0"
