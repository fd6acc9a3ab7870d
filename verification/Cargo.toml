[package]
name = "pusu"
version = "0.1.0"
edition = "2021"
publish = false

[dependencies]
anyhow = "1"
config = { version = "*", default-features = false, features = ["json", "toml", "yaml"] }
postcard = { version = "1", default-features = false, features = ["use-std"] }
rand = "0.9"
serde = { version = "1", features = ["derive"] }
signal-hook = "0.3"
strum = { version = "*", features = ["derive"] }
thiserror = "2"
