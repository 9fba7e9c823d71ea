[package]
name = "embedded-nvm-settings"
version = "0.1.0"
edition = "2021"
publish = false

[dependencies]
postcard = "1"
serde = { version = "1", default-features = false, features = ["derive"] }
embassy-sync = "*"
embedded-storage-async = "*"
sequential-storage = "*"

[dev-dependencies]
embassy-futures = "*"
