[package]
name = "can_log_decoder"
version = "0.1.0"
edition = "2021"
publish = false

[dependencies]
autosar-data = "*"
can-dbc = "5"
chrono = "0.4"
zune-inflate = "0.2"
log = "0.4"
env_logger = "*"
clap = { version = "4", features = ["derive"] }
serde = { version = "1", features = ["derive"] }
toml = "*"
thiserror = "1"
