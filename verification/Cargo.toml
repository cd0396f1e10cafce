[package]
name = "ayni"
version = "0.1.0"
edition = "2021"
publish = false

[dependencies]
semver = "=1.0.28"
glob = "=0.3.4"
toml = "=0.8.23"
clap = { version = "=4.6.7", features = ["derive"] }
serde_json = "=1.0.154"
walkdir = "=2.5.0"
sha2 = "0.10"

[dev-dependencies]
tempfile = "=3.27.0"
