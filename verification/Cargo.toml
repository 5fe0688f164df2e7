[package]
name = "rcsync"
version = "0.1.0"
edition = "2021"
publish = false

[dependencies]
chrono = "0.4"
serde = { version = "1", features = ["derive"] }
serde_json = "1"
dirs = "*"
hostname = "*"
libc = "0.2"
notify = "*"
notify-debouncer-mini = "*"
shared_child = "1"
tokio = { version = "1", features = ["sync", "rt", "rt-multi-thread"] }
