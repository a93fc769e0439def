[package]
name = "keylightd"
version = "0.3.1"
edition = "2021"
publish = false

[dependencies]
anyhow = "1"
clap = { version = "4", features = ["derive"] }
libc = "0.2"
mdns-sd = "*"
serde = { version = "1", features = ["derive"] }
serde_json = "1"
signal-hook = "*"
toml = "*"
tracing = "0.1"
tracing-subscriber = { version = "0.3", features = ["env-filter"] }
ureq = { version = "3", default-features = false, features = ["json"] }
zbus = { version = "5", features = ["blocking-api"] }
