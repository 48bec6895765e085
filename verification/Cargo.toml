[package]
name = "csloop"
version = "0.1.0"
edition = "2021"
publish = false

[dependencies]
anyhow = "1"
clap = { version = "4", features = ["derive", "env"] }
glob = "0.3"
indicatif = "0.17"
serde = { version = "1", features = ["derive"] }
serde_json = "1"
shell-words = "1"
time = { version = "0.3", features = ["formatting"] }
toml = "0.9"
ureq = { version = "3", features = ["json"] }
