[package]
name = "pty_sessions"
version = "0.1.0"
edition = "2021"
publish = false

[dependencies]
uuid = { version = "=1.27.0", features = ["v4"] }
dirs = "=7.0.0"
portable-pty = "=0.9.0"
parking_lot = "=0.12.5"
serde_json = "*"
