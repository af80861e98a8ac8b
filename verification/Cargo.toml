[package]
name = "hhh"
version = "0.1.0"
edition = "2021"
publish = false

[dependencies]
anyhow = "1"
clap = { version = "4", features = ["derive"] }
configparser = "3"
indicatif = "0.17"
json_comments = "0.2"
regex = "1"
reqwest = { version = "0.12", default-features = false, features = ["json"] }
semver = "1"
serde = { version = "1", features = ["derive"] }
serde_json = "1"
tokio = { version = "1", features = ["macros", "rt-multi-thread"] }
urlencoding = "2"
