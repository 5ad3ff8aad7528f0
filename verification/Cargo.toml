[package]
name = "eru"
version = "0.1.0"
edition = "2021"
publish = false

[dependencies]
chrono = "0.4"
walkdir = "2"
clap = { version = "4", features = ["derive"] }
dialoguer = "0.11"
epub = "2"
serde_json = "1"
strsim = "0.11"
thiserror = "1"
ureq = { version = "2", features = ["json"] }
