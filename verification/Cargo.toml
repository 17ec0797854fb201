[package]
name = "nestcli"
version = "0.1.0"
edition = "2021"
publish = false

[dependencies]
aho-corasick = "=1.1.5"
anyhow = "=1.0.104"
clap = { version = "=4.6.7", features = ["derive"] }
directories = "=6.0.0"
inquire = "=0.9.4"
opener = { version = "=0.9.0", features = ["reveal"] }
serde = { version = "=1.0.229", features = ["derive"] }
toml = "=1.1.6"
walkdir = "=2.5.0"
which = "=8.0.6"
zip = "=8.6.0"
