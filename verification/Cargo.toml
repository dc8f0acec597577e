[package]
name = "benchy"
version = "0.1.0"
edition = "2021"
publish = false

[dependencies]
anyhow = "=1.0.104"
cargo_metadata = "=0.23.1"
chrono = { version = "=0.4.45", features = ["serde"] }
clap = { version = "=4.6.7", features = ["derive"] }
egui = { version = "=0.37.0", default-features = false }
egui_extras = { version = "=0.37.0", default-features = false }
egui_plot = { version = "=0.38.0", default-features = false }
ehttp = { version = "=0.7.2", features = ["json"] }
env_logger = "=0.11.11"
fs2 = "=0.4.3"
log = "=0.4.35"
rocket = { version = "=0.5.2", features = ["json"] }
rusqlite = { version = "=0.41.1", features = ["bundled"] }
serde = { version = "=1.0.229", features = ["derive"] }
serde_json = "=1.0.154"
tokio = { version = "=1.54.1", features = ["process", "fs", "rt-multi-thread", "macros"] }

[dev-dependencies]
tempfile = "=3.27.0"
