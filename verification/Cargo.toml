[package]
name = "irrigation"
version = "0.1.0"
edition = "2021"
publish = false

[dependencies]
chrono = { version = "0.4", default-features = false, features = ["clock", "std"] }
log = "0.4"
pretty_env_logger = "0.5"
serde = { version = "1", features = ["derive"] }
serde_yaml = "0.9"
sysfs_gpio = "0.6"
tokio = { version = "1", features = ["macros", "rt-multi-thread", "net", "sync"] }
