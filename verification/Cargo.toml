[package]
name = "rocket_file_cache"
version = "0.1.0"
edition = "2021"
publish = false

[dependencies]
concurrent-hashmap = { version = "=0.2.2", default-features = false }
log = "=0.4.35"
rocket = "=0.5.2"
