[package]
name = "hardpass"
version = "0.1.0"
edition = "2021"
publish = false

[dependencies]
anyhow = "1"
clap = { version = "4", features = ["derive"] }
dirs = "6"
fatfs = "0.3"
fs2 = "0.4"
fscommon = "0.1"
nix = { version = "0.30", features = ["signal", "process"] }
reqwest = { version = "0.12", default-features = false, features = ["rustls-tls"] }
serde = { version = "1", features = ["derive"] }
serde_json = "1"
serde_yaml = "0.9"
sha2 = "0.10"
tokio = { version = "1", features = ["full"] }

[dev-dependencies]
tempfile = "3"
