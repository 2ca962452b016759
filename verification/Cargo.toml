[package]
name = "surrealdb_migrate"
version = "0.2.0"
edition = "2021"
publish = false

[dependencies]
chrono = { version = "0.4", default-features = false, features = ["std", "clock"] }
crc32fast = "1"
regex = "1"
indexmap = "2"
walkdir = "2"
serde = { version = "1", features = ["derive"] }
serde_with = "3"
thiserror = "2"
config = { version = "0.15", default-features = false, features = ["toml"] }
clap = { version = "4", features = ["derive"] }
log = "0.4"
simplelog = "0.12"
color-eyre = "0.6"
cli-table = "0.5"
tokio = { version = "1", features = ["macros", "rt-multi-thread"] }
enumset = "1"
