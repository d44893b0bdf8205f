[package]
name = "codex_trace"
version = "0.1.0"
edition = "2021"
publish = false

[dependencies]
chrono = { version = "0.4", default-features = false, features = ["std"] }
dirs = "*"
ratatui = { version = "0.29", default-features = false, features = ["crossterm"] }
rayon = "1"
rusqlite = { version = "*", default-features = false, features = ["bundled"] }
serde = { version = "1", features = ["derive"] }
serde_json = "1"
tokio = { version = "1", features = ["sync"] }
