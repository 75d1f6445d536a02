[package]
name = "clings"
version = "0.1.0"
edition = "2021"
publish = false

[dependencies]
regex = "1"
nucleo-matcher = "0.3"
serde = { version = "1", features = ["derive"] }
serde_json = "1"
toml = "0.8"
rusqlite = { version = "0.31", features = ["bundled"] }
chrono = "0.4"
colored = "2"
clap = { version = "4", features = ["derive"] }
thiserror = "1"
libc = "0.2"
