[package]
name = "folder_organizer"
version = "0.1.0"
edition = "2021"
publish = false

[dependencies]
regex = "1"
uuid = { version = "1", features = ["v4"] }
chrono = "0.4"
serde = { version = "1", features = ["derive"] }
serde_json = "1"
rusqlite = { version = "*", features = ["bundled"] }
notify = "*"
notify-debouncer-mini = "*"
trash = "*"
dirs = "*"
log = "0.4"
env_logger = "*"
