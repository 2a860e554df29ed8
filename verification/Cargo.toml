[package]
name = "herdr"
version = "0.1.0"
edition = "2021"
publish = false

[dependencies]
libc = "0.2"
notify-debouncer-full = "0.5"
ratatui = { version = "0.29", default-features = false }
serde = { version = "1", features = ["derive"] }
tokio = { version = "1", features = ["sync"] }
tracing = "0.1"
