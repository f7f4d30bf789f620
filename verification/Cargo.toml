[package]
name = "kaku"
version = "0.1.0"
edition = "2021"
publish = false

[dependencies]
anyhow = "1"
chrono = "0.4"
log = "0.4"
ratatui = { version = "0.29", default-features = false }
serde_json = "1"
shlex = "1"
termwiz = "*"
unicode-segmentation = "1"
