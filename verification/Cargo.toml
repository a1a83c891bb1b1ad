[package]
name = "chicon_runner"
version = "0.1.0"
edition = "2021"
publish = false

[dependencies]
anyhow = "*"
clap = "*"
env_logger = "*"
fs_extra = "*"
git2 = { version = "*", default-features = false }
isahc = { version = "*", features = ["json"] }
log = "*"
serde = { version = "*", features = ["derive"] }
serde_json = "*"
toml = "*"
tungstenite = "*"
url = "*"
