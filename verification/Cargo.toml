[package]
name = "chix"
version = "0.1.0"
edition = "2021"
publish = false

[dependencies]
anyhow = "*"
async-trait = "*"
clap = { version = "*", features = ["derive"] }
dirs = "*"
lazy_static = "*"
serde = { version = "*", features = ["derive"] }
serde_json = "*"
thiserror = "*"
tokio = { version = "*", features = ["full"] }
toml = "*"
uuid = { version = "*", features = ["v4"] }
