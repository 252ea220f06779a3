[package]
name = "lingxi"
version = "0.1.0"
edition = "2021"
publish = false

[dependencies]
libc = "0.2"
pam-sys = "0.5"
serde = { version = "1", features = ["derive"] }
smithay = "0.7"
toml = "0.8"
tracing = "0.1"
tracing-subscriber = { version = "0.3", features = ["env-filter"] }
xcursor = "0.3"
