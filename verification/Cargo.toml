[package]
name = "creeper"
version = "0.1.0"
edition = "2021"
publish = false

[dependencies]
anyhow = "1"
blake3 = "1"
clap = { version = "4", features = ["derive"] }
const-hex = "1"
dirs = "*"
indicatif = "*"
mc-launchermeta = "*"
pubgrub = "0.3"
reqwest = { version = "0.12", features = ["json"] }
ring = "0.17"
semver = { version = "1", features = ["serde"] }
serde = { version = "1", features = ["derive"] }
serde-inline-default = "*"
serde_json = "1"
serde_with = "3"
spdx = "*"
sqlx = { version = "0.8", features = ["sqlite", "runtime-tokio"] }
tokio = { version = "1", features = ["full"] }
toml = "*"
tracing = "0.1"
tracing-indicatif = "*"
tracing-subscriber = "0.3"
url = "2"
walkdir = "2"
