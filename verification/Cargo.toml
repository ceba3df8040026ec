[package]
name = "shardcache"
version = "0.1.0"
edition = "2021"
publish = false

[dependencies]
chrono = "0.4"
fern = "*"
log = "0.4"
reqwest = { version = "0.12", default-features = false }
rocket = "0.5"
tokio = { version = "1", features = ["macros", "rt-multi-thread", "sync", "time"] }
