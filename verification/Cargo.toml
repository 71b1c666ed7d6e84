[package]
name = "mmm"
version = "0.1.0"
edition = "2021"
publish = false

[dependencies]
chrono = "0.4"
serde = { version = "1", features = ["derive"] }
serde_yaml = "0.8"
serde_json = "1"
actix-web = "4"
charts = "*"
clap = "2"
dirs = "4"
fastrand = "1"
fstream = "*"
lazy_static = "1"
once_cell = "1"
rppal = "*"
system-config = "*"
tiny_http = "0.12"
ureq = "2"
