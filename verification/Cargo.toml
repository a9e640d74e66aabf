[package]
name = "gus"
version = "0.1.0"
edition = "2021"
publish = false

[dependencies]
anyhow = "*"
clap = { version = "*", features = ["derive"] }
comfy-table = "*"
console = "*"
dialoguer = "*"
dirs = "*"
glob = "*"
rpassword = "*"
serde = { version = "*", features = ["derive"] }
toml = "*"
