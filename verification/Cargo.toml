[package]
name = "cargo_version_info"
version = "0.1.0"
edition = "2021"
publish = false

[dependencies]
similar = "=2.7.0"
toml = "=1.1.8"
toml_edit = "=0.25.17"
cargo_metadata = "=0.23.1"
serde = { version = "=1.0.229", features = ["derive"] }
serde_json = "=1.0.154"
anyhow = "=1.0.104"
clap = { version = "=4.6.7", features = ["derive", "env"] }
tokio = { version = "=1.54.1", features = ["macros", "rt-multi-thread"] }
gix = "=0.90.0"
octocrab = "=0.54.9"
regex = "1"
cargo-plugin-utils = "*"
