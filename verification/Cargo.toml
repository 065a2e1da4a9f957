[package]
name = "oa_forge"
version = "0.1.0"
edition = "2021"
publish = false

[dependencies]
pathdiff = "0.2"
indexmap = { version = "2", features = ["serde"] }
serde = { version = "1", features = ["derive"] }
serde_json = "1"
serde_yaml = "0.9"
toml = "0.8"
clap = { version = "4", features = ["derive"] }
notify = "6"
rayon = "1"
anyhow = "1"
thiserror = "1"
