[package]
name = "webf_check"
version = "0.1.0"
edition = "2021"
publish = false

[dependencies]
regex = "1"
anyhow = "1"
walkdir = "2"
clap = { version = "4", features = ["derive"] }
serde = { version = "1", features = ["derive"] }
serde_json = "1"
serde_yaml = "0.9"
toml = "0.8"
java-properties = "1.4"
android-manifest = "0.3"
xmltree = "0.10"
which = "6"
chrono = "0.4"
env_logger = "0.11"
log = "0.4"
image = { version = "0.25", default-features = false, features = ["png"] }
