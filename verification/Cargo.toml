[package]
name = "terra"
version = "0.1.0"
edition = "2021"
publish = false

[dependencies]
anyhow = "1"
clap = { version = "4", features = ["derive"] }
clap_complete = "4"
crossterm = "*"
flate2 = "1"
log = "0.4"
rustix = { version = "*", features = ["fs", "process", "stdio", "termios"] }
serde = { version = "1", features = ["derive"] }
serde_json = "1"
sha2 = "*"
tempfile = "3"
tokio = { version = "1", features = ["full"] }
tracing-appender = "*"
tracing-subscriber = "0.3"
unicode-normalization = "0.1"
yaml_serde = "*"
