[package]
name = "codex_switch"
version = "0.1.0"
edition = "2021"
publish = false

[dependencies]
base64 = "0.22"
bytes = "1"
chrono = "0.4"
log = "0.4"
once_cell = "1"
rusqlite = { version = "0.31", features = ["bundled", "backup"] }
rusty-leveldb = "3"
serde = { version = "1", features = ["derive"] }
serde_json = "1"
toml = "0.8"
toml_edit = "0.22"
