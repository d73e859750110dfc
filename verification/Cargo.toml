[package]
name = "drive_fuse"
version = "0.1.0"
edition = "2021"
publish = false

[dependencies]
auto-launch = "=0.5.0"
catppuccin-egui = { version = "5.2", default-features = false, features = ["egui28"] }
chrono = { version = "=0.4.45", default-features = false, features = ["std"] }
directories = "=5.0.1"
egui = { version = "0.28", default-features = false }
image = { version = "0.25", default-features = false, features = ["png"] }
notify = { version = "6", default-features = false }
serde = { version = "=1.0.229", features = ["derive"] }
serde_json = "=1.0.154"
tokio = { version = "1", default-features = false, features = ["rt-multi-thread", "sync"] }
tracing = "=0.1.44"
tracing-appender = "0.2"
tracing-subscriber = { version = "0.3", default-features = false, features = ["fmt", "std", "chrono"] }
whoami = "=1.6.1"
