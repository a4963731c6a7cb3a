[package]
name = "herdr"
version = "0.1.0"
edition = "2021"
publish = false

[dependencies]
unicode-width = "0.2"
serde = { version = "1", features = ["derive"] }
serde_json = "1"
ureq = { version = "2", default-features = false }
libc = "0.2"
ratatui = { version = "0.29", default-features = false }

[dev-dependencies]
serde_json = "1"
