[package]
name = "ip_geo"
version = "0.1.0"
edition = "2021"
publish = false

[dependencies]
chrono = "0.4"
clap = { version = "4", features = ["derive"] }
dirs = "5"
mediawiki = "*"
serde = { version = "1", features = ["derive"] }
thiserror = "1"
toml = "0.8"
