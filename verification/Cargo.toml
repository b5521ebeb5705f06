[package]
name = "rlm"
version = "0.1.0"
edition = "2021"
publish = false

[dependencies]
clap = { version = "4", features = ["derive"] }
ctrlc = "3"
dirs = "*"
libc = "0.2"
serde = { version = "1", features = ["derive"] }
serde_yaml_ng = "*"
thiserror = "*"
tracing = "0.1"
tracing-subscriber = { version = "0.3", features = ["env-filter"] }
