[package]
name = "iona"
version = "0.6.0"
edition = "2021"
publish = false

[dependencies]
bootloader_api = "0.11"
linked_list_allocator = "0.10"
parking_lot = "0.12"
serde = { version = "1", features = ["derive"] }
serde_json = "1"
spin = "0.9"
thiserror = "1"
toml = "0.5"
tracing = "0.1"
tracing-subscriber = { version = "0.3", features = ["env-filter"] }
x86_64 = { version = "0.15", default-features = false, features = ["instructions"] }
