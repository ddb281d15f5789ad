[package]
name = "ag_iso_terminal_designer"
version = "0.1.0"
edition = "2021"
publish = false

[dependencies]
egui = { version = "0.32.3", default-features = false }
env_logger = "0.11"
log = "0.4"
serde = { version = "1", features = ["derive"] }
serde_json = "1"
