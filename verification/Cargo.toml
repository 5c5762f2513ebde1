[package]
name = "merged_lands"
version = "0.1.0"
edition = "2021"
publish = false

[dependencies]
anyhow = "=1.0.104"
clap = { version = "=4.6.7", features = ["derive"] }
dirs = "=7.0.0"
image = { version = "0.25", default-features = false, features = ["png"] }
log = "=0.4.35"
serde = { version = "=1.0.229", features = ["derive"] }
shellexpand = "=3.1.2"
simplelog = "=0.12.2"
tes3 = "*"
toml = "=1.1.8"
wild = "=2.2.1"
