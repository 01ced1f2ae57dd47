[package]
name = "sky_wayland"
version = "0.1.0"
edition = "2021"
publish = false

[dependencies]
anyhow = "=1.0.104"
ashpd = { version = "=0.13.13", features = ["remote_desktop", "screencast"] }
atspi = { version = "=0.30.0", features = ["tokio"] }
base64 = "=0.22.1"
libc = "=0.2.191"
png = "=0.18.1"
serde = { version = "=1.0.229", features = ["derive"] }
serde_json = "=1.0.154"
tokio = { version = "=1.54.1", features = ["rt", "macros", "net", "io-util", "time", "sync"] }
zbus = { version = "=5.19.0", default-features = false, features = ["tokio", "blocking-api"] }
