[package]
name = "review-kb"
version = "0.1.0"
edition = "2021"
publish = false

[dependencies]
chrono = "=0.4.45"
clap = { version = "=4.6.7", features = ["derive"] }
rusqlite = { version = "=0.32.1", features = ["bundled", "backup"] }
serde_json = { version = "=1.0.154", features = ["preserve_order"] }
serde_yml = "=0.0.11"
sha2 = "=0.10.9"
tempfile = "=3.27.0"
toml = "=0.8.23"
