[package]
name = "artifactsmmo_semi_auto_bot"
version = "0.1.0"
edition = "2021"
publish = false

[dependencies]
chrono = "0.4"
itertools = "*"
serde = { version = "1", features = ["derive"] }
serde_json = "1"
figment = { version = "0.10", features = ["toml"] }
thiserror = "2"
log = "0.4"
anyhow = "1"
fs_extra = "1"
strum = { version = "*", features = ["derive"] }
simple-logging = "*"
