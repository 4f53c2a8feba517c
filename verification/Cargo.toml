[package]
name = "codex_guard"
version = "0.1.0"
edition = "2021"
publish = false

[dependencies]
toml_edit = "0.22"
sha2 = "0.10"
serde = { version = "1", features = ["derive"] }
serde_json = "1"
uuid = { version = "1", features = ["v4"] }
